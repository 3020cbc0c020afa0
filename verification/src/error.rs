//! The errors a build can abort with. Every failure carries the offending
//! path; none is retried or downgraded.

use vstd::prelude::*;
use vstd::string::StringExecFns;

verus! {

/// Why a build aborted.
#[derive(Debug, Clone)]
pub enum BuildError {
    /// A referenced file or directory could not be read.
    Io { path: String },
    /// A relative path could not be resolved against the root.
    PathResolution { path: String },
    /// The override document referenced a non-directory as a directory node.
    InvalidConfig { path: String },
    /// The override document did not parse under its declared format.
    Deserialization { path: String },
}

/// The mathematical value of a build error.
#[verifier::ext_equal]
pub enum ErrorModel {
    Io { path: Seq<char> },
    PathResolution { path: Seq<char> },
    InvalidConfig { path: Seq<char> },
    Deserialization { path: Seq<char> },
}

impl View for BuildError {
    type V = ErrorModel;

    open spec fn view(&self) -> ErrorModel {
        match self {
            BuildError::Io { path } => ErrorModel::Io { path: path@ },
            BuildError::PathResolution { path } => ErrorModel::PathResolution { path: path@ },
            BuildError::InvalidConfig { path } => ErrorModel::InvalidConfig { path: path@ },
            BuildError::Deserialization { path } => ErrorModel::Deserialization { path: path@ },
        }
    }
}

/// The description an error surfaces with: a fixed phrase for its kind,
/// then the offending path.
pub open spec fn error_message(e: ErrorModel) -> Seq<char> {
    match e {
        ErrorModel::Io { path } => "could not read: "@ + path,
        ErrorModel::PathResolution { path } => "could not resolve path: "@ + path,
        ErrorModel::InvalidConfig { path } => "not a directory: "@ + path,
        ErrorModel::Deserialization { path } => "could not parse config: "@ + path,
    }
}

impl BuildError {
    /// A readable description of the failure, naming the offending path.
    pub fn message(&self) -> (r: String)
        ensures
            r@ == error_message(self@),
    {
        let mut s = match self {
            BuildError::Io { .. } => String::from_str("could not read: "),
            BuildError::PathResolution { .. } => String::from_str("could not resolve path: "),
            BuildError::InvalidConfig { .. } => String::from_str("not a directory: "),
            BuildError::Deserialization { .. } => String::from_str("could not parse config: "),
        };
        let p = match self {
            BuildError::Io { path } => path,
            BuildError::PathResolution { path } => path,
            BuildError::InvalidConfig { path } => path,
            BuildError::Deserialization { path } => path,
        };
        s.append(p.as_str());
        s
    }
}

} // verus!
