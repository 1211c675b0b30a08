use vstd::prelude::*;

use crate::assoc::views_of;
use crate::strutil::last_start;
use crate::strutil::last_segment;

verus! {

/// One field of a data-schema model: its name, its type, and whether it
/// belongs to the model's key.
pub struct Member {
    pub name: String,
    pub ty: String,
    pub key: bool,
}

pub struct MemberView {
    pub name: Seq<char>,
    pub ty: Seq<char>,
    pub key: bool,
}

impl View for Member {
    type V = MemberView;

    open spec fn view(&self) -> MemberView {
        MemberView { name: self.name@, ty: self.ty@, key: self.key }
    }
}

impl DeepView for Member {
    type V = MemberView;

    open spec fn deep_view(&self) -> MemberView {
        self@
    }
}

pub fn clone_member(m: &Member) -> (r: Member)
    ensures
        r@ == m@,
{
    Member { name: m.name.clone(), ty: m.ty.clone(), key: m.key }
}

pub fn clone_members(v: &Vec<Member>) -> (r: Vec<Member>)
    ensures
        r.deep_view() == v.deep_view(),
{
    let mut r: Vec<Member> = Vec::new();
    let mut i: usize = 0;
    while i < v.len()
        invariant
            i <= v@.len(),
            r@.len() == i,
            forall|j: int| 0 <= j < i ==> r@[j]@ == v@[j]@,
        decreases v@.len() - i,
    {
        r.push(clone_member(&v[i]));
        i += 1;
    }
    proof {
        assert(r.deep_view() =~= v.deep_view());
    }
    r
}

/// A binding from a contract-exposed entrypoint to the model whose value
/// it computes, recorded against the submodule that declares it.
pub struct ComputedValueEntrypoint {
    pub contract: String,
    pub entrypoint: String,
    pub model: String,
}

pub struct CveView {
    pub contract: Seq<char>,
    pub entrypoint: Seq<char>,
    pub model: Seq<char>,
}

impl View for ComputedValueEntrypoint {
    type V = CveView;

    open spec fn view(&self) -> CveView {
        CveView {
            contract: self.contract@,
            entrypoint: self.entrypoint@,
            model: self.model@,
        }
    }
}

pub open spec fn cve_views(s: Seq<ComputedValueEntrypoint>) -> Seq<CveView> {
    s.map_values(|c: ComputedValueEntrypoint| c@)
}

pub fn clone_cves(v: &Vec<ComputedValueEntrypoint>) -> (r: Vec<ComputedValueEntrypoint>)
    ensures
        cve_views(r@) == cve_views(v@),
{
    let mut r: Vec<ComputedValueEntrypoint> = Vec::new();
    let mut i: usize = 0;
    while i < v.len()
        invariant
            i <= v@.len(),
            r@.len() == i,
            forall|j: int| 0 <= j < i ==> r@[j]@ == v@[j]@,
        decreases v@.len() - i,
    {
        let c = &v[i];
        r.push(
            ComputedValueEntrypoint {
                contract: c.contract.clone(),
                entrypoint: c.entrypoint.clone(),
                model: c.model.clone(),
            },
        );
        i += 1;
    }
    proof {
        assert(cve_views(r@) =~= cve_views(v@));
    }
    r
}

pub fn clone_opt_string(v: &Option<String>) -> (r: Option<String>)
    ensures
        r.deep_view() == v.deep_view(),
{
    match v {
        Some(s) => Some(s.clone()),
        None => None,
    }
}

/// The manifest of one user contract: identity, content hash, ABI
/// reference, the model accesses it performs, its computed-value
/// bindings, and the operator-recorded deployment address.
pub struct ContractManifest {
    pub name: String,
    pub class_hash: String,
    pub abi: Option<String>,
    pub reads: Vec<String>,
    pub writes: Vec<String>,
    pub computed: Vec<ComputedValueEntrypoint>,
    pub address: Option<String>,
}

pub struct ContractManifestView {
    pub name: Seq<char>,
    pub class_hash: Seq<char>,
    pub abi: Option<Seq<char>>,
    pub reads: Seq<Seq<char>>,
    pub writes: Seq<Seq<char>>,
    pub computed: Seq<CveView>,
    pub address: Option<Seq<char>>,
}

impl View for ContractManifest {
    type V = ContractManifestView;

    open spec fn view(&self) -> ContractManifestView {
        ContractManifestView {
            name: self.name@,
            class_hash: self.class_hash@,
            abi: self.abi.deep_view(),
            reads: views_of(self.reads@),
            writes: views_of(self.writes@),
            computed: cve_views(self.computed@),
            address: self.address.deep_view(),
        }
    }
}

/// The manifest of one data-schema model: identity, content hash, ABI
/// reference, and the model's members.
pub struct ModelManifest {
    pub name: String,
    pub class_hash: String,
    pub abi: Option<String>,
    pub members: Vec<Member>,
}

pub struct ModelManifestView {
    pub name: Seq<char>,
    pub class_hash: Seq<char>,
    pub abi: Option<Seq<char>>,
    pub members: Seq<MemberView>,
}

impl View for ModelManifest {
    type V = ModelManifestView;

    open spec fn view(&self) -> ModelManifestView {
        ModelManifestView {
            name: self.name@,
            class_hash: self.class_hash@,
            abi: self.abi.deep_view(),
            members: self.members.deep_view(),
        }
    }
}

/// The manifest of one of the three system contracts.
pub struct ClassManifest {
    pub name: String,
    pub class_hash: String,
    pub abi: Option<String>,
    pub address: Option<String>,
}

pub struct ClassManifestView {
    pub name: Seq<char>,
    pub class_hash: Seq<char>,
    pub abi: Option<Seq<char>>,
    pub address: Option<Seq<char>>,
}

impl View for ClassManifest {
    type V = ClassManifestView;

    open spec fn view(&self) -> ClassManifestView {
        ClassManifestView {
            name: self.name@,
            class_hash: self.class_hash@,
            abi: self.abi.deep_view(),
            address: self.address.deep_view(),
        }
    }
}

/// Reconciles a freshly computed contract manifest with the manifest
/// persisted by an earlier build. Compiler-derived fields (name, hash,
/// ABI reference, reads, writes, computed bindings) take the fresh
/// value; the deployment address is operator bookkeeping, not recomputed
/// by a build, and carries over from the prior manifest.
pub fn merge_contract_manifest(fresh: &ContractManifest, prior: &ContractManifest) -> (r:
    ContractManifest)
    ensures
        r@.name == fresh@.name,
        r@.class_hash == fresh@.class_hash,
        r@.abi == fresh@.abi,
        r@.reads == fresh@.reads,
        r@.writes == fresh@.writes,
        r@.computed == fresh@.computed,
        r@.address == prior@.address,
{
    ContractManifest {
        name: fresh.name.clone(),
        class_hash: fresh.class_hash.clone(),
        abi: clone_opt_string(&fresh.abi),
        reads: crate::assoc::clone_string_vec(&fresh.reads),
        writes: crate::assoc::clone_string_vec(&fresh.writes),
        computed: clone_cves(&fresh.computed),
        address: clone_opt_string(&prior.address),
    }
}

/// Reconciles a system-contract manifest: hash and ABI reference are
/// compiler-derived; the deployment address carries over.
pub fn merge_class_manifest(fresh: &ClassManifest, prior: &ClassManifest) -> (r: ClassManifest)
    ensures
        r@.name == fresh@.name,
        r@.class_hash == fresh@.class_hash,
        r@.abi == fresh@.abi,
        r@.address == prior@.address,
{
    ClassManifest {
        name: fresh.name.clone(),
        class_hash: fresh.class_hash.clone(),
        abi: clone_opt_string(&fresh.abi),
        address: clone_opt_string(&prior.address),
    }
}

/// Reconciles a model manifest. Every model field is compiler-derived,
/// so the fresh manifest wins wholesale; the function records that
/// ownership decision.
pub fn merge_model_manifest(fresh: &ModelManifest, _prior: &ModelManifest) -> (r: ModelManifest)
    ensures
        r@ == fresh@,
{
    ModelManifest {
        name: fresh.name.clone(),
        class_hash: fresh.class_hash.clone(),
        abi: clone_opt_string(&fresh.abi),
        members: clone_members(&fresh.members),
    }
}

/// Which subtree of the manifest root a manifest is persisted under.
pub enum ManifestKind {
    Base,
    Contract,
    Model,
}

/// The short file name of a manifest: the last segment of its qualified
/// path.
pub open spec fn short_name(s: Seq<char>) -> Seq<char> {
    s.skip(last_start(s))
}

pub open spec fn manifest_dir(k: ManifestKind) -> Seq<char> {
    match k {
        ManifestKind::Base => "manifests/base"@,
        ManifestKind::Contract => "manifests/base/contracts"@,
        ManifestKind::Model => "manifests/base/models"@,
    }
}

pub open spec fn abi_out_dir(k: ManifestKind) -> Seq<char> {
    match k {
        ManifestKind::Base => "abis"@,
        ManifestKind::Contract => "abis/contracts"@,
        ManifestKind::Model => "abis/models"@,
    }
}

/// Where one manifest and its ABI document land, relative to the
/// workspace root, and the ABI reference recorded inside the manifest.
pub struct WritePlan {
    pub manifest_rel: String,
    pub abi_rel: String,
    pub abi_ref: String,
}

/// Derives the deterministic output paths for one manifest from its
/// qualified name's last segment.
pub fn plan_manifest_write(kind: ManifestKind, name: &str) -> (r: WritePlan)
    ensures
        r.manifest_rel@ == manifest_dir(kind) + "/"@ + short_name(name@) + ".toml"@,
        r.abi_rel@ == abi_out_dir(kind) + "/"@ + short_name(name@) + ".json"@,
        r.abi_ref@ == "abis/"@ + short_name(name@) + ".json"@,
{
    let short = last_segment(name);
    let mdir: &str = match kind {
        ManifestKind::Base => "manifests/base",
        ManifestKind::Contract => "manifests/base/contracts",
        ManifestKind::Model => "manifests/base/models",
    };
    let adir: &str = match kind {
        ManifestKind::Base => "abis",
        ManifestKind::Contract => "abis/contracts",
        ManifestKind::Model => "abis/models",
    };
    let mut manifest_rel = mdir.to_owned();
    manifest_rel.append("/");
    manifest_rel.append(short.as_str());
    manifest_rel.append(".toml");
    let mut abi_rel = adir.to_owned();
    abi_rel.append("/");
    abi_rel.append(short.as_str());
    abi_rel.append(".json");
    let mut abi_ref = "abis/".to_owned();
    abi_ref.append(short.as_str());
    abi_ref.append(".json");
    WritePlan { manifest_rel, abi_rel, abi_ref }
}

} // verus!
