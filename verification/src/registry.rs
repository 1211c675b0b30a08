use vstd::prelude::*;

use crate::assoc::assoc_get;
use crate::assoc::distinct_keys;
use crate::assoc::find_key;
use crate::assoc::has_key;
use crate::assoc::lemma_assoc_get_at;
use crate::assoc::lemma_assoc_get_some;
use crate::error::BuildError;
use crate::manifest::clone_opt_string;

verus! {

/// One compiled class as handed over by the compilation step: its
/// qualified module path, the canonical JSON text of the compiled class,
/// and the ABI document when one was produced.
pub struct ArtifactInput {
    pub qualified_path: String,
    pub class_json: String,
    pub abi: Option<String>,
}

/// The record kept per qualified path: content hash and optional ABI.
pub struct CompiledArtifact {
    pub class_hash: String,
    pub abi: Option<String>,
}

/// Names the content hash that starknet-core computes for the Sierra
/// class serialized in the given JSON text; `None` when the text does
/// not parse back as a Sierra class or the class cannot be hashed. The
/// hash is a function of the text alone, which is what makes repeated
/// builds reproducible.
pub uninterp spec fn sierra_class_hash(json: Seq<char>) -> Option<Seq<char>>;

/// Relies on serde_json::from_str to read a Sierra contract class back
/// from its canonical JSON, and on starknet-core's
/// SierraClass::class_hash for the digest; both depend on the JSON text
/// alone.
#[verifier::external_body]
fn compute_sierra_class_hash(json: &str) -> (r: Option<String>)
    ensures
        match (r, sierra_class_hash(json@)) {
            (Some(h), Some(v)) => h@ == v,
            (None, None) => true,
            _ => false,
        },
{
    let parsed: Result<starknet_core::types::contract::SierraClass, _> = serde_json::from_str(
        json,
    );
    match parsed {
        Ok(class) => match class.class_hash() {
            Ok(h) => Some(format!("{h:#x}")),
            Err(_) => None,
        },
        Err(_) => None,
    }
}

/// The in-memory mapping from qualified module path to compiled
/// artifact record; built once per build and read-only afterwards.
pub struct ArtifactRegistry {
    pub entries: Vec<(String, CompiledArtifact)>,
}

pub open spec fn reg_lookup(reg: ArtifactRegistry, path: Seq<char>) -> Option<CompiledArtifact> {
    assoc_get(reg.entries@, path)
}

impl ArtifactRegistry {
    /// Qualified paths key the registry uniquely.
    pub open spec fn wf(self) -> bool {
        distinct_keys(self.entries@)
    }

    pub fn lookup(&self, path: &str) -> (r: Option<&CompiledArtifact>)
        ensures
            match r {
                Some(a) => reg_lookup(*self, path@) == Some(*a),
                None => reg_lookup(*self, path@) is None,
            },
    {
        let found = find_key(&self.entries, path);
        match found {
            Some(i) => {
                proof {
                    lemma_assoc_get_at(self.entries@, path@, i as int);
                }
                Some(&self.entries[i].1)
            },
            None => {
                proof {
                    lemma_assoc_get_some(self.entries@, path@);
                }
                None
            },
        }
    }

    pub fn contains(&self, path: &str) -> (r: bool)
        ensures
            r == has_key(self.entries@, path@),
    {
        let found = find_key(&self.entries, path);
        match found {
            Some(i) => {
                proof {
                    assert(self.entries@[i as int].0@ == path@);
                }
                true
            },
            None => false,
        }
    }
}

/// Every artifact in the input has a content hash.
pub open spec fn all_hashable(items: Seq<ArtifactInput>) -> bool {
    forall|i: int| 0 <= i < items.len() ==> sierra_class_hash(items[i].class_json@) is Some
}

/// The compilation step keys its output uniquely by qualified path.
pub open spec fn distinct_paths(items: Seq<ArtifactInput>) -> bool {
    forall|i: int, j: int|
        0 <= i < j < items.len() ==> items[i].qualified_path@ != items[j].qualified_path@
}

/// The output file for one compiled class: its qualified path with a
/// `.json` extension, under the build target directory.
pub fn artifact_file_name(path: &str) -> (r: String)
    ensures
        r@ == path@ + ".json"@,
{
    let mut r = path.to_owned();
    r.append(".json");
    r
}

/// Builds the artifact registry from the compiled classes, hashing each
/// class's canonical JSON. A class whose JSON does not round-trip is a
/// fatal error reported with its qualified path; the build fails fast on
/// the first such artifact.
pub fn build_registry(items: &Vec<ArtifactInput>) -> (r: Result<ArtifactRegistry, BuildError>)
    requires
        distinct_paths(items@),
    ensures
        match r {
            Ok(reg) => {
                &&& all_hashable(items@)
                &&& reg.wf()
                &&& reg.entries@.len() == items@.len()
                &&& forall|i: int|
                    0 <= i < items@.len() ==> reg.entries@[i].0@ == items@[i].qualified_path@
                &&& forall|i: int|
                    0 <= i < items@.len() ==> Some(reg.entries@[i].1.class_hash@)
                        == sierra_class_hash(items@[i].class_json@)
                &&& forall|i: int|
                    0 <= i < items@.len() ==> reg.entries@[i].1.abi.deep_view() == items@[
                        i
                    ].abi.deep_view()
            },
            Err(e) => match e {
                BuildError::ArtifactParse { qualified_path } => {
                    &&& !all_hashable(items@)
                    &&& exists|i: int|
                        0 <= i < items@.len() && items@[i].qualified_path@ == qualified_path@
                            && sierra_class_hash(items@[i].class_json@) is None
                },
                _ => false,
            },
        },
{
    let mut entries: Vec<(String, CompiledArtifact)> = Vec::new();
    let mut idx: usize = 0;
    while idx < items.len()
        invariant
            distinct_paths(items@),
            idx <= items@.len(),
            entries@.len() == idx,
            forall|i: int| 0 <= i < idx ==> entries@[i].0@ == items@[i].qualified_path@,
            forall|i: int|
                0 <= i < idx ==> Some(entries@[i].1.class_hash@) == sierra_class_hash(
                    items@[i].class_json@,
                ),
            forall|i: int|
                0 <= i < idx ==> entries@[i].1.abi.deep_view() == items@[i].abi.deep_view(),
            forall|i: int| 0 <= i < idx ==> sierra_class_hash(items@[i].class_json@) is Some,
        decreases items@.len() - idx,
    {
        let item = &items[idx];
        let hashed = compute_sierra_class_hash(item.class_json.as_str());
        match hashed {
            Some(h) => {
                entries.push(
                    (
                        item.qualified_path.clone(),
                        CompiledArtifact { class_hash: h, abi: clone_opt_string(&item.abi) },
                    ),
                );
            },
            None => {
                return Err(
                    BuildError::ArtifactParse { qualified_path: item.qualified_path.clone() },
                );
            },
        }
        idx += 1;
    }
    proof {
        assert(distinct_keys(entries@));
    }
    Ok(ArtifactRegistry { entries })
}

} // verus!
