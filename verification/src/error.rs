use vstd::prelude::*;

verus! {

/// The build-fatal failures of the classification and aggregation
/// pipeline. Each carries the qualified name of the entity on which the
/// operation failed.
#[derive(Debug)]
pub enum BuildError {
    /// A compiled artifact's canonical JSON did not survive the
    /// parse-back round trip, so it has no content hash.
    ArtifactParse { qualified_path: String },
    /// One of the three system contracts is absent from the compiled
    /// artifact set.
    MissingSystemContract { name: String },
    /// A computed-value group references a contract path for which no
    /// contract manifest was aggregated: the owning contract failed to
    /// compile while a nested computed-value module still reported
    /// itself.
    ComputedValueOwnerMissing { contract: String },
}

impl BuildError {
    /// A diagnostic line naming the failed entity and the operation.
    pub fn message(&self) -> (r: String)
        ensures
            r@ == match *self {
                BuildError::ArtifactParse { qualified_path } => "error parsing Sierra class: "@
                    + qualified_path@,
                BuildError::MissingSystemContract { name } => "contract not found in compiled artifacts: "@
                    + name@,
                BuildError::ComputedValueOwnerMissing { contract } => "computed value contract doesn't exist: "@
                    + contract@,
            },
    {
        match self {
            BuildError::ArtifactParse { qualified_path } => {
                let mut m = "error parsing Sierra class: ".to_owned();
                m.append(qualified_path.as_str());
                m
            },
            BuildError::MissingSystemContract { name } => {
                let mut m = "contract not found in compiled artifacts: ".to_owned();
                m.append(name.as_str());
                m
            },
            BuildError::ComputedValueOwnerMissing { contract } => {
                let mut m = "computed value contract doesn't exist: ".to_owned();
                m.append(contract.as_str());
                m
            },
        }
    }
}

/// A per-item, non-fatal condition, reported but not aborting the pass.
#[derive(Debug)]
pub enum Diagnostic {
    /// A declared contract whose compiled artifact is missing from the
    /// registry; it is excluded from the output.
    ContractNotCompiled { qualified_path: String },
    /// A declared model with no separately compiled unit; skipped by
    /// design.
    ModelNotCompiled { qualified_path: String },
}

} // verus!
