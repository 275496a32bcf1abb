//! What a workspace operation can fail with.
use crate::conflict::ConflictMarker;
use crate::message::{concat2, concat3, concat4, concat5};
use crate::number::{decimal, decimal_text};
use crate::paths::ResourcePath;
use crate::text::texts;
use vstd::prelude::*;

verus! {

/// Why a workspace operation failed.
#[derive(Clone, Debug, PartialEq, Eq)]
pub enum WorkspaceError {
    /// The operating system refused an operation; the text is its reason.
    Io(String),
    InvalidUtf8(ResourcePath),
    InvalidFormat(String),
    InvalidPath(String),
    PathTraversal(String),
    SymbolicLink(ResourcePath),
    AlreadyExists(ResourcePath),
    ExternalChange(ResourcePath),
    MergeConflict { path: ResourcePath, markers: Vec<ConflictMarker> },
    UnsupportedSchemaVersion { found: u32, supported: u32 },
    FileTooLarge { path: ResourcePath, maximum_bytes: u64, observed_bytes: u64 },
    /// Descriptions of what looks like a secret in the text to be saved.
    SecretLeak(Vec<String>),
    SecretResolution(String),
}

/// Why a workspace operation failed, by its contents.
#[verifier::ext_equal]
pub enum WorkspaceErrorView {
    Io(Seq<char>),
    InvalidUtf8(Seq<char>),
    InvalidFormat(Seq<char>),
    InvalidPath(Seq<char>),
    PathTraversal(Seq<char>),
    SymbolicLink(Seq<char>),
    AlreadyExists(Seq<char>),
    ExternalChange(Seq<char>),
    MergeConflict { path: Seq<char>, markers: Seq<ConflictMarker> },
    UnsupportedSchemaVersion { found: u32, supported: u32 },
    FileTooLarge { path: Seq<char>, maximum_bytes: u64, observed_bytes: u64 },
    SecretLeak(Seq<Seq<char>>),
    SecretResolution(Seq<char>),
}

impl View for WorkspaceError {
    type V = WorkspaceErrorView;

    open spec fn view(&self) -> WorkspaceErrorView {
        match self {
            WorkspaceError::Io(t) => WorkspaceErrorView::Io(t@),
            WorkspaceError::InvalidUtf8(p) => WorkspaceErrorView::InvalidUtf8(p@),
            WorkspaceError::InvalidFormat(t) => WorkspaceErrorView::InvalidFormat(t@),
            WorkspaceError::InvalidPath(t) => WorkspaceErrorView::InvalidPath(t@),
            WorkspaceError::PathTraversal(t) => WorkspaceErrorView::PathTraversal(t@),
            WorkspaceError::SymbolicLink(p) => WorkspaceErrorView::SymbolicLink(p@),
            WorkspaceError::AlreadyExists(p) => WorkspaceErrorView::AlreadyExists(p@),
            WorkspaceError::ExternalChange(p) => WorkspaceErrorView::ExternalChange(p@),
            WorkspaceError::MergeConflict { path, markers } => WorkspaceErrorView::MergeConflict {
                path: path@,
                markers: markers@,
            },
            WorkspaceError::UnsupportedSchemaVersion { found, supported } =>
                WorkspaceErrorView::UnsupportedSchemaVersion {
                found: *found,
                supported: *supported,
            },
            WorkspaceError::FileTooLarge { path, maximum_bytes, observed_bytes } =>
                WorkspaceErrorView::FileTooLarge {
                path: path@,
                maximum_bytes: *maximum_bytes,
                observed_bytes: *observed_bytes,
            },
            WorkspaceError::SecretLeak(list) => WorkspaceErrorView::SecretLeak(texts(list@)),
            WorkspaceError::SecretResolution(t) => WorkspaceErrorView::SecretResolution(t@),
        }
    }
}

/// The contents of the outcome of an operation.
pub open spec fn outcome<T: View, E: View>(r: Result<T, E>) -> Result<T::V, E::V> {
    match r {
        Ok(v) => Ok(v@),
        Err(e) => Err(e@),
    }
}

/// What an error says.
pub open spec fn error_message(error: WorkspaceErrorView) -> Seq<char> {
    match error {
        WorkspaceErrorView::Io(t) => "workspace I/O failed: "@ + t,
        WorkspaceErrorView::InvalidUtf8(p) => "workspace file is not UTF-8: "@ + p,
        WorkspaceErrorView::InvalidFormat(t) => "invalid workspace format: "@ + t,
        WorkspaceErrorView::InvalidPath(t) => "invalid workspace path: "@ + t,
        WorkspaceErrorView::PathTraversal(t) => "workspace path traversal rejected: "@ + t,
        WorkspaceErrorView::SymbolicLink(p) =>
            "symbolic links are not allowed in workspace mutations: "@ + p,
        WorkspaceErrorView::AlreadyExists(p) =>
            "refusing to overwrite existing workspace resource: "@ + p,
        WorkspaceErrorView::ExternalChange(p) => "file changed outside ApexAPI: "@ + p,
        WorkspaceErrorView::MergeConflict { path, markers } => "merge conflict markers found in "@
            + path + " at "@ + decimal(markers.len()) + " location(s)"@,
        WorkspaceErrorView::UnsupportedSchemaVersion { found, supported } =>
            "workspace schema version "@ + decimal(found as nat)
            + " is unsupported; current version is "@ + decimal(supported as nat),
        WorkspaceErrorView::FileTooLarge { path, maximum_bytes, observed_bytes } =>
            "workspace file "@ + path + " is "@ + decimal(observed_bytes as nat)
            + " bytes, exceeding "@ + decimal(maximum_bytes as nat) + " bytes"@,
        WorkspaceErrorView::SecretLeak(list) => "refusing to save workspace file with "@ + decimal(
            list.len(),
        ) + " potential secret leak(s)"@,
        WorkspaceErrorView::SecretResolution(t) => "secret resolution failed: "@ + t,
    }
}

impl WorkspaceError {
    /// What the error says.
    pub fn message(&self) -> (text: String)
        ensures
            text@ == error_message(self@),
    {
        match self {
            WorkspaceError::Io(t) => concat2("workspace I/O failed: ", t.as_str()),
            WorkspaceError::InvalidUtf8(p) => concat2("workspace file is not UTF-8: ", p.as_text()),
            WorkspaceError::InvalidFormat(t) => concat2("invalid workspace format: ", t.as_str()),
            WorkspaceError::InvalidPath(t) => concat2("invalid workspace path: ", t.as_str()),
            WorkspaceError::PathTraversal(t) => concat2(
                "workspace path traversal rejected: ",
                t.as_str(),
            ),
            WorkspaceError::SymbolicLink(p) => concat2(
                "symbolic links are not allowed in workspace mutations: ",
                p.as_text(),
            ),
            WorkspaceError::AlreadyExists(p) => concat2(
                "refusing to overwrite existing workspace resource: ",
                p.as_text(),
            ),
            WorkspaceError::ExternalChange(p) => concat2(
                "file changed outside ApexAPI: ",
                p.as_text(),
            ),
            WorkspaceError::MergeConflict { path, markers } => concat5(
                "merge conflict markers found in ",
                path.as_text(),
                " at ",
                decimal_text(markers.len() as u64).as_str(),
                " location(s)",
            ),
            WorkspaceError::UnsupportedSchemaVersion { found, supported } => concat4(
                "workspace schema version ",
                decimal_text(*found as u64).as_str(),
                " is unsupported; current version is ",
                decimal_text(*supported as u64).as_str(),
            ),
            WorkspaceError::FileTooLarge { path, maximum_bytes, observed_bytes } => concat3(
                concat3("workspace file ", path.as_text(), " is ").as_str(),
                concat3(
                    decimal_text(*observed_bytes).as_str(),
                    " bytes, exceeding ",
                    decimal_text(*maximum_bytes).as_str(),
                ).as_str(),
                " bytes",
            ),
            WorkspaceError::SecretLeak(list) => concat3(
                "refusing to save workspace file with ",
                decimal_text(list.len() as u64).as_str(),
                " potential secret leak(s)",
            ),
            WorkspaceError::SecretResolution(t) => concat2(
                "secret resolution failed: ",
                t.as_str(),
            ),
        }
    }
}

/// An error about the format of a text.
pub fn invalid_format(text: &str) -> (e: WorkspaceError)
    ensures
        e@ == WorkspaceErrorView::InvalidFormat(text@),
{
    WorkspaceError::InvalidFormat(text.to_owned())
}

} // verus!
