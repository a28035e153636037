//! Why a patch could not be applied.
use vstd::prelude::*;
use crate::patch::yaml_ext::{YamlError, YamlErrorV};

verus! {

/// Why a patch could not be applied.
#[derive(Debug)]
pub enum PatchError {
    /// A name specification whose glob does not compile.
    InvalidSpec(String),
    /// A YAML node that does not have the type the rule asks for.
    Yaml(YamlError),
    /// Nothing matches the specification of a rule that needs a match.
    NotFound(String),
    /// The element that a rule would create is already there.
    AlreadyExists(String),
    /// A rule that cannot be carried out as written.
    Invalid(String),
}

/// The kinds of [`PatchError`], for contracts.
pub enum PatchErrorKind {
    InvalidSpec,
    Yaml,
    NotFound,
    AlreadyExists,
    Invalid,
}

impl PatchError {
    /// The kind of this error.
    pub open spec fn kind(&self) -> PatchErrorKind {
        match self {
            PatchError::InvalidSpec(_) => PatchErrorKind::InvalidSpec,
            PatchError::Yaml(_) => PatchErrorKind::Yaml,
            PatchError::NotFound(_) => PatchErrorKind::NotFound,
            PatchError::AlreadyExists(_) => PatchErrorKind::AlreadyExists,
            PatchError::Invalid(_) => PatchErrorKind::Invalid,
        }
    }
}

/// Whether `r` failed with an error of kind `k`.
pub open spec fn failed_with<T>(r: Result<T, PatchError>, k: PatchErrorKind) -> bool {
    match r {
        Err(e) => e.kind() == k,
        Ok(_) => false,
    }
}

/// Whether `r` failed on the YAML node problem `y`.
pub open spec fn failed_on_yaml<T>(r: Result<T, PatchError>, y: YamlErrorV) -> bool {
    match r {
        Err(PatchError::Yaml(e)) => e@ == y,
        _ => false,
    }
}

} // verus!
