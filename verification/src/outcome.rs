//! The outcome of an operation: the one sum type that is returned to clients.

use crate::errors::TuringDbError;
use vstd::prelude::*;

verus! {

/// What an operation came to.
#[derive(Debug, Clone, PartialEq, Eq)]
pub enum OpsOutcome {
    RepoCreated,
    RepoAlreadyExists,
    RepoEmpty,
    RepoNotFound,
    RepoDropped,
    DbCreated,
    DbAlreadyExists,
    DbNotFound,
    DbEmpty,
    DbList(Vec<String>),
    DbDropped,
    DocumentCreated,
    DocumentAlreadyExists,
    DocumentNotFound,
    DocumentEmpty,
    DocumentList(Vec<String>),
    DocumentDropped,
    FieldInserted,
    FieldAlreadyExists,
    FieldNotFound,
    FieldContents(Vec<u8>),
    FieldList(Vec<Vec<u8>>),
    FieldModified,
    FieldDropped,
    /// A flush reached stable storage.
    Committed,
    PermissionDenied,
    /// Any other failure, with a diagnostic message.
    EncounteredErrors(String),
}

/// An outcome as proofs see it: names as sequences of characters, payloads
/// and keys as sequences of bytes.
pub enum OutcomeView {
    RepoCreated,
    RepoAlreadyExists,
    RepoEmpty,
    RepoNotFound,
    RepoDropped,
    DbCreated,
    DbAlreadyExists,
    DbNotFound,
    DbEmpty,
    DbList(Seq<Seq<char>>),
    DbDropped,
    DocumentCreated,
    DocumentAlreadyExists,
    DocumentNotFound,
    DocumentEmpty,
    DocumentList(Seq<Seq<char>>),
    DocumentDropped,
    FieldInserted,
    FieldAlreadyExists,
    FieldNotFound,
    FieldContents(Seq<u8>),
    FieldList(Seq<Seq<u8>>),
    FieldModified,
    FieldDropped,
    Committed,
    PermissionDenied,
    EncounteredErrors(Seq<char>),
}

/// The call succeeded, with this outcome.
pub open spec fn gives(r: Result<OpsOutcome, TuringDbError>, outcome: OutcomeView) -> bool {
    r matches Ok(o) && o@ == outcome
}

/// The names that a vector of strings holds, in order.
pub open spec fn name_views(v: Seq<String>) -> Seq<Seq<char>> {
    Seq::new(v.len(), |i: int| v[i]@)
}

impl View for OpsOutcome {
    type V = OutcomeView;

    open spec fn view(&self) -> OutcomeView {
        match self {
            OpsOutcome::RepoCreated => OutcomeView::RepoCreated,
            OpsOutcome::RepoAlreadyExists => OutcomeView::RepoAlreadyExists,
            OpsOutcome::RepoEmpty => OutcomeView::RepoEmpty,
            OpsOutcome::RepoNotFound => OutcomeView::RepoNotFound,
            OpsOutcome::RepoDropped => OutcomeView::RepoDropped,
            OpsOutcome::DbCreated => OutcomeView::DbCreated,
            OpsOutcome::DbAlreadyExists => OutcomeView::DbAlreadyExists,
            OpsOutcome::DbNotFound => OutcomeView::DbNotFound,
            OpsOutcome::DbEmpty => OutcomeView::DbEmpty,
            OpsOutcome::DbList(names) => OutcomeView::DbList(name_views(names@)),
            OpsOutcome::DbDropped => OutcomeView::DbDropped,
            OpsOutcome::DocumentCreated => OutcomeView::DocumentCreated,
            OpsOutcome::DocumentAlreadyExists => OutcomeView::DocumentAlreadyExists,
            OpsOutcome::DocumentNotFound => OutcomeView::DocumentNotFound,
            OpsOutcome::DocumentEmpty => OutcomeView::DocumentEmpty,
            OpsOutcome::DocumentList(names) => OutcomeView::DocumentList(name_views(names@)),
            OpsOutcome::DocumentDropped => OutcomeView::DocumentDropped,
            OpsOutcome::FieldInserted => OutcomeView::FieldInserted,
            OpsOutcome::FieldAlreadyExists => OutcomeView::FieldAlreadyExists,
            OpsOutcome::FieldNotFound => OutcomeView::FieldNotFound,
            OpsOutcome::FieldContents(data) => OutcomeView::FieldContents(data@),
            OpsOutcome::FieldList(keys) => OutcomeView::FieldList(
                crate::keys::key_views(keys@),
            ),
            OpsOutcome::FieldModified => OutcomeView::FieldModified,
            OpsOutcome::FieldDropped => OutcomeView::FieldDropped,
            OpsOutcome::Committed => OutcomeView::Committed,
            OpsOutcome::PermissionDenied => OutcomeView::PermissionDenied,
            OpsOutcome::EncounteredErrors(message) => OutcomeView::EncounteredErrors(message@),
        }
    }
}

} // verus!
