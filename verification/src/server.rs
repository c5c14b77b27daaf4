//! The dispatcher: what the server does with a command, and how failures
//! of the layers below turn into replies.
//!
//! The dispatcher never touches the file system. Where a command needs a
//! directory made or removed, it hands that work out as a [`DirWork`], and
//! takes the result back in [`complete`].

use crate::commands::{DocumentOnly, TuringCommands, TuringOp};
use crate::database::{document_list_view, lemma_empty_text};
use crate::engine::{
    db_create_post, db_drop_post, db_list_post, doc_create_post, doc_drop_post,
    engine_field_get_post, engine_field_insert_post, engine_field_list_post,
    engine_field_modify_post, engine_field_remove_post, TuringEngine,
};
use crate::errors::{IoErrors, TuringDbError};
use crate::names::{is_component, plain_component, text_bytes};
use crate::outcome::{gives, OpsOutcome, OutcomeView};
use vstd::prelude::*;

verus! {

/// The level of the hierarchy at which an operation works.
#[derive(Debug, Clone, Copy, PartialEq, Eq, Structural)]
pub enum Level {
    Repo,
    Db,
    Document,
    Field,
}

/// The message of a failure: the operation that failed and the tag of what
/// went wrong.
pub open spec fn error_message(op: TuringOp, tag: Seq<char>) -> Seq<char> {
    "[TuringDB::<"@ + op.spec_name() + ">::(ERROR)-"@ + tag + "]"@
}

/// The reply to a failed operation that no outcome of its own stands for.
pub fn format_error(op: &TuringOp, tag: &str) -> (r: OpsOutcome)
    ensures
        r@ == OutcomeView::EncounteredErrors(error_message(*op, tag@)),
{
    let mut message = String::from_str("[TuringDB::<");
    message.append(op.name());
    message.append(">::(ERROR)-");
    message.append(tag);
    message.append("]");
    OpsOutcome::EncounteredErrors(message)
}

/// "Not found", at a level.
pub open spec fn not_found(level: Level) -> OutcomeView {
    match level {
        Level::Repo => OutcomeView::RepoNotFound,
        Level::Db => OutcomeView::DbNotFound,
        Level::Document => OutcomeView::DocumentNotFound,
        Level::Field => OutcomeView::FieldNotFound,
    }
}

/// "Already exists", at a level.
pub open spec fn already_exists(level: Level) -> OutcomeView {
    match level {
        Level::Repo => OutcomeView::RepoAlreadyExists,
        Level::Db => OutcomeView::DbAlreadyExists,
        Level::Document => OutcomeView::DocumentAlreadyExists,
        Level::Field => OutcomeView::FieldAlreadyExists,
    }
}

/// The reply to an operation at `level` that came to `r`: the outcome where
/// it succeeded; for an I/O failure "not found", "already exists" at that
/// level or "permission denied" where it is one of these; for a store that
/// exists already "document already exists"; for any other failure a
/// message that names the operation and the failure.
pub open spec fn transform_view(
    level: Level,
    op: TuringOp,
    r: Result<OpsOutcome, TuringDbError>,
) -> OutcomeView {
    match r {
        Ok(outcome) => outcome@,
        Err(TuringDbError::Io(IoErrors::NotFound)) => not_found(level),
        Err(TuringDbError::Io(IoErrors::AlreadyExists)) => already_exists(level),
        Err(TuringDbError::Io(IoErrors::PermissionDenied)) => OutcomeView::PermissionDenied,
        Err(TuringDbError::DocumentAlreadyExists) => OutcomeView::DocumentAlreadyExists,
        Err(e) => OutcomeView::EncounteredErrors(error_message(op, e.spec_tag())),
    }
}

/// Turns what an operation came to into the reply to it.
pub fn response_transform(level: Level, op: &TuringOp, r: Result<OpsOutcome, TuringDbError>) -> (o:
    OpsOutcome)
    ensures
        o@ == transform_view(level, *op, r),
{
    match r {
        Ok(outcome) => outcome,
        Err(TuringDbError::Io(IoErrors::NotFound)) => match level {
            Level::Repo => OpsOutcome::RepoNotFound,
            Level::Db => OpsOutcome::DbNotFound,
            Level::Document => OpsOutcome::DocumentNotFound,
            Level::Field => OpsOutcome::FieldNotFound,
        },
        Err(TuringDbError::Io(IoErrors::AlreadyExists)) => match level {
            Level::Repo => OpsOutcome::RepoAlreadyExists,
            Level::Db => OpsOutcome::DbAlreadyExists,
            Level::Document => OpsOutcome::DocumentAlreadyExists,
            Level::Field => OpsOutcome::FieldAlreadyExists,
        },
        Err(TuringDbError::Io(IoErrors::PermissionDenied)) => OpsOutcome::PermissionDenied,
        Err(TuringDbError::DocumentAlreadyExists) => OpsOutcome::DocumentAlreadyExists,
        Err(e) => format_error(op, e.tag()),
    }
}

/// The reply to an operation on the repository.
pub fn repo_response_transform(op: &TuringOp, r: Result<OpsOutcome, TuringDbError>) -> (o:
    OpsOutcome)
    ensures
        o@ == transform_view(Level::Repo, *op, r),
{
    response_transform(Level::Repo, op, r)
}

/// The reply to an operation on a database.
pub fn db_response_transform(op: &TuringOp, r: Result<OpsOutcome, TuringDbError>) -> (o: OpsOutcome)
    ensures
        o@ == transform_view(Level::Db, *op, r),
{
    response_transform(Level::Db, op, r)
}

/// The reply to an operation on a document.
pub fn document_response_transform(op: &TuringOp, r: Result<OpsOutcome, TuringDbError>) -> (o:
    OpsOutcome)
    ensures
        o@ == transform_view(Level::Document, *op, r),
{
    response_transform(Level::Document, op, r)
}

/// The reply to an operation on a field.
pub fn field_response_transform(op: &TuringOp, r: Result<OpsOutcome, TuringDbError>) -> (o:
    OpsOutcome)
    ensures
        o@ == transform_view(Level::Field, *op, r),
{
    response_transform(Level::Field, op, r)
}

/// Work on the directories of the repository that a command needs done.
#[derive(Debug, Clone, PartialEq, Eq)]
pub enum DirWork {
    /// Make the root directory; it must not exist.
    CreateRepo,
    /// Remove the root directory and all below it. The repository lets
    /// its databases go once that is done.
    RemoveRepo,
    /// Make the directory of this database under the root; it must not
    /// exist.
    CreateDb(String),
    /// Remove the directory of this database and all below it. The
    /// repository lets the database go once that is done.
    RemoveDb(String),
    /// Remove the directory of this document and all below it. The
    /// database lets the document go once that is done.
    RemoveDocument(DocumentOnly),
    /// Remove the directory of this document and all below it: its store
    /// was made and could then not be read. Then reply with this outcome
    /// whatever the removal came to.
    Rollback(DocumentOnly, OpsOutcome),
    /// Remove the directory of this document, and the directory that the
    /// store makes in it, as far as they are empty: the store could not be
    /// made, and may have left them behind. Then reply with this outcome
    /// whatever the removal came to.
    Sweep(DocumentOnly, OpsOutcome),
}

/// What the server does next with a command.
#[derive(Debug, Clone, PartialEq, Eq)]
pub enum Step {
    /// Send this reply.
    Reply(OpsOutcome),
    /// Do this work, and hand the result to [`complete`] for the reply.
    Io(DirWork),
}

/// The step is this reply.
pub open spec fn replies(step: Step, outcome: OutcomeView) -> bool {
    step matches Step::Reply(o) && o@ == outcome
}

/// What `process_command` comes to for `DbCreate`.
pub open spec fn db_create_step(before: TuringEngine, name: Seq<char>, step: Step) -> bool {
    if name.len() == 0 {
        replies(
            step,
            transform_view(
                Level::Db,
                TuringOp::DbCreate,
                Err(TuringDbError::DbNameMissing),
            ),
        )
    } else if !plain_component(text_bytes(name)) {
        replies(
            step,
            transform_view(
                Level::Db,
                TuringOp::DbCreate,
                Err(TuringDbError::InvalidPathUnicodeName),
            ),
        )
    } else if before.has_db(name) {
        replies(step, OutcomeView::DbAlreadyExists)
    } else {
        step matches Step::Io(DirWork::CreateDb(n)) && n@ == name
    }
}

/// What `process_command` comes to for `DbDrop`: the reply where there is
/// nothing to drop, else the removal of the directory.
pub open spec fn db_drop_step(before: TuringEngine, name: Seq<char>, step: Step) -> bool {
    if name.len() == 0 {
        replies(
            step,
            transform_view(Level::Db, TuringOp::DbDrop, Err(TuringDbError::DbNameMissing)),
        )
    } else if !before.has_db(name) {
        replies(step, OutcomeView::DbNotFound)
    } else {
        step matches Step::Io(DirWork::RemoveDb(n)) && n@ == name
    }
}

/// The store of a new document could not be made, for another reason than
/// that it exists.
pub open spec fn open_failed(r: Result<OpsOutcome, TuringDbError>) -> bool {
    r matches Err(e) && e.is_store_failure() && e != TuringDbError::DocumentUnfinished
}

/// What `process_command` comes to for `DocumentCreate`, where the
/// repository came to `r`.
pub open spec fn doc_create_step(
    before: TuringEngine,
    after: TuringEngine,
    d: DocumentOnly,
    step: Step,
    r: Result<OpsOutcome, TuringDbError>,
) -> bool {
    &&& doc_create_post(before, after, d.db@, d.document@, r)
    &&& if r == Err::<OpsOutcome, TuringDbError>(TuringDbError::DocumentUnfinished) {
        step matches Step::Io(DirWork::Rollback(left, o)) && left == d && o@ == transform_view(
            Level::Document,
            TuringOp::DocumentCreate,
            r,
        )
    } else if open_failed(r) {
        step matches Step::Io(DirWork::Sweep(left, o)) && left == d && o@ == transform_view(
            Level::Document,
            TuringOp::DocumentCreate,
            r,
        )
    } else {
        replies(step, transform_view(Level::Document, TuringOp::DocumentCreate, r))
    }
}

/// What `process_command` comes to for `DocumentDrop`: the reply where
/// there is nothing to drop, else the removal of the directory.
pub open spec fn doc_drop_step(before: TuringEngine, d: DocumentOnly, step: Step) -> bool {
    if !before.has_db(d.db@) {
        replies(step, OutcomeView::DbNotFound)
    } else if d.document@.len() == 0 {
        replies(
            step,
            transform_view(
                Level::Document,
                TuringOp::DocumentDrop,
                Err(TuringDbError::EmptyDocumentName),
            ),
        )
    } else if !before.db(d.db@).has(d.document@) {
        replies(step, OutcomeView::DocumentNotFound)
    } else {
        step matches Step::Io(DirWork::RemoveDocument(gone)) && gone == d
    }
}

/// What `process_command` comes to for `FieldList`, where the repository
/// came to `r`.
pub open spec fn field_list_step(
    before: TuringEngine,
    after: TuringEngine,
    d: DocumentOnly,
    step: Step,
    r: Result<OpsOutcome, TuringDbError>,
) -> bool {
    &&& engine_field_list_post(before, after, d.db@, d.document@, r)
    &&& replies(step, transform_view(Level::Field, TuringOp::FieldList, r))
}

/// What `process_command` comes to for `FieldInsert`, where the repository
/// came to `r`. The key of the field is the UTF-8 form of its name.
pub open spec fn field_insert_step(
    before: TuringEngine,
    after: TuringEngine,
    db: Seq<char>,
    document: Seq<char>,
    field: Seq<char>,
    data: Seq<u8>,
    step: Step,
    r: Result<OpsOutcome, TuringDbError>,
) -> bool {
    &&& engine_field_insert_post(before, after, db, document, text_bytes(field), data, r)
    &&& replies(step, transform_view(Level::Field, TuringOp::FieldInsert, r))
}

/// What `process_command` comes to for `FieldRead`, where the repository
/// came to `r`.
pub open spec fn field_read_step(
    before: TuringEngine,
    after: TuringEngine,
    db: Seq<char>,
    document: Seq<char>,
    field: Seq<char>,
    step: Step,
    r: Result<OpsOutcome, TuringDbError>,
) -> bool {
    &&& engine_field_get_post(before, after, db, document, text_bytes(field), r)
    &&& replies(step, transform_view(Level::Field, TuringOp::FieldGet, r))
}

/// What `process_command` comes to for `FieldRemove`, where the repository
/// came to `r`.
pub open spec fn field_remove_step(
    before: TuringEngine,
    after: TuringEngine,
    db: Seq<char>,
    document: Seq<char>,
    field: Seq<char>,
    step: Step,
    r: Result<OpsOutcome, TuringDbError>,
) -> bool {
    &&& engine_field_remove_post(before, after, db, document, text_bytes(field), r)
    &&& replies(step, transform_view(Level::Field, TuringOp::FieldRemove, r))
}

/// What `process_command` comes to for `FieldModify`, where the repository
/// came to `r`.
pub open spec fn field_modify_step(
    before: TuringEngine,
    after: TuringEngine,
    db: Seq<char>,
    document: Seq<char>,
    field: Seq<char>,
    data: Seq<u8>,
    step: Step,
    r: Result<OpsOutcome, TuringDbError>,
) -> bool {
    &&& engine_field_modify_post(before, after, db, document, text_bytes(field), data, r)
    &&& replies(step, transform_view(Level::Field, TuringOp::FieldModify, r))
}

/// What `process_command` comes to: each command is one operation of the
/// repository, and the step is the reply to what that came to, or the work
/// on the directories that the operation needs. A command that drops
/// changes nothing yet: what it drops is let go in `complete`, once its
/// directory is removed.
pub open spec fn process_post(
    before: TuringEngine,
    after: TuringEngine,
    command: TuringCommands,
    step: Step,
) -> bool {
    match command {
        TuringCommands::RepoCreate => after.same_as(before) && step == Step::Io(
            DirWork::CreateRepo,
        ),
        TuringCommands::RepoDrop => after.same_as(before) && step == Step::Io(
            DirWork::RemoveRepo,
        ),
        TuringCommands::DbCreate(name) => after.same_as(before) && db_create_step(
            before,
            name@,
            step,
        ),
        TuringCommands::DbList => after.same_as(before) && (step matches Step::Reply(o)
            && db_list_post(before, o@)),
        TuringCommands::DbDrop(name) => after.same_as(before) && db_drop_step(before, name@, step),
        TuringCommands::DocumentCreate(d) => exists|r: Result<OpsOutcome, TuringDbError>|
            #[trigger] doc_create_step(before, after, d, step, r),
        TuringCommands::DocumentList(db) => after.same_as(before) && replies(
            step,
            if before.has_db(db@) {
                document_list_view(before.db(db@))
            } else {
                OutcomeView::DbNotFound
            },
        ),
        TuringCommands::DocumentDrop(d) => after.same_as(before) && doc_drop_step(before, d, step),
        TuringCommands::FieldInsert(f) => exists|r: Result<OpsOutcome, TuringDbError>|
            #[trigger] field_insert_step(
                before,
                after,
                f.db@,
                f.document@,
                f.field@,
                f.data@,
                step,
                r,
            ),
        TuringCommands::FieldRead(f) => exists|r: Result<OpsOutcome, TuringDbError>|
            #[trigger] field_read_step(before, after, f.db@, f.document@, f.field@, step, r),
        TuringCommands::FieldRemove(f) => exists|r: Result<OpsOutcome, TuringDbError>|
            #[trigger] field_remove_step(before, after, f.db@, f.document@, f.field@, step, r),
        TuringCommands::FieldModify(f) => exists|r: Result<OpsOutcome, TuringDbError>|
            #[trigger] field_modify_step(
                before,
                after,
                f.db@,
                f.document@,
                f.field@,
                f.data@,
                step,
                r,
            ),
        TuringCommands::FieldList(d) => exists|r: Result<OpsOutcome, TuringDbError>|
            #[trigger] field_list_step(before, after, d, step, r),
    }
}

/// Carries out a command as far as the repository in memory goes.
pub fn process_command(engine: &mut TuringEngine, command: TuringCommands) -> (step: Step)
    requires
        old(engine).wf(),
    ensures
        final(engine).wf(),
        process_post(*old(engine), *final(engine), command, step),
{
    match command {
        TuringCommands::RepoCreate => Step::Io(DirWork::CreateRepo),
        TuringCommands::RepoDrop => Step::Io(DirWork::RemoveRepo),
        TuringCommands::DbCreate(name) => {
            proof {
                lemma_empty_text(name@);
            }
            if name.as_str().is_empty() {
                Step::Reply(
                    db_response_transform(&TuringOp::DbCreate, Err(TuringDbError::DbNameMissing)),
                )
            } else if !is_component(name.as_str()) {
                Step::Reply(
                    db_response_transform(
                        &TuringOp::DbCreate,
                        Err(TuringDbError::InvalidPathUnicodeName),
                    ),
                )
            } else if engine.contains_db(name.as_str()) {
                Step::Reply(OpsOutcome::DbAlreadyExists)
            } else {
                Step::Io(DirWork::CreateDb(name))
            }
        },
        TuringCommands::DbList => Step::Reply(engine.db_list()),
        TuringCommands::DbDrop(name) => {
            if name.as_str().is_empty() {
                Step::Reply(
                    db_response_transform(&TuringOp::DbDrop, Err(TuringDbError::DbNameMissing)),
                )
            } else if !engine.contains_db(name.as_str()) {
                Step::Reply(OpsOutcome::DbNotFound)
            } else {
                Step::Io(DirWork::RemoveDb(name))
            }
        },
        TuringCommands::DocumentCreate(d) => {
            let r = engine.doc_create(d.db.as_str(), d.document.as_str());
            let ghost r0 = r;
            let ghost d0 = d;
            let step = match r {
                Err(TuringDbError::DocumentUnfinished) => {
                    let outcome = document_response_transform(
                        &TuringOp::DocumentCreate,
                        Err(TuringDbError::DocumentUnfinished),
                    );
                    Step::Io(DirWork::Rollback(d, outcome))
                },
                Err(e) => {
                    let failed = e.store_failed();
                    let outcome = document_response_transform(&TuringOp::DocumentCreate, Err(e));
                    if failed {
                        Step::Io(DirWork::Sweep(d, outcome))
                    } else {
                        Step::Reply(outcome)
                    }
                },
                Ok(outcome) => Step::Reply(outcome),
            };
            assert(doc_create_step(*old(engine), *engine, d0, step, r0));
            step
        },
        TuringCommands::DocumentList(db) => Step::Reply(engine.doc_list(db.as_str())),
        TuringCommands::DocumentDrop(d) => {
            if !engine.contains_db(d.db.as_str()) {
                Step::Reply(OpsOutcome::DbNotFound)
            } else if d.document.as_str().is_empty() {
                Step::Reply(
                    document_response_transform(
                        &TuringOp::DocumentDrop,
                        Err(TuringDbError::EmptyDocumentName),
                    ),
                )
            } else if !engine.contains_doc(d.db.as_str(), d.document.as_str()) {
                Step::Reply(OpsOutcome::DocumentNotFound)
            } else {
                Step::Io(DirWork::RemoveDocument(d))
            }
        },
        TuringCommands::FieldInsert(f) => {
            let r = engine.field_insert(
                f.db.as_str(),
                f.document.as_str(),
                f.field.as_str().as_bytes(),
                f.data.as_slice(),
            );
            let ghost r0 = r;
            let step = Step::Reply(field_response_transform(&TuringOp::FieldInsert, r));
            assert(field_insert_step(
                *old(engine),
                *engine,
                f.db@,
                f.document@,
                f.field@,
                f.data@,
                step,
                r0,
            ));
            step
        },
        TuringCommands::FieldRead(f) => {
            let r = engine.field_get(
                f.db.as_str(),
                f.document.as_str(),
                f.field.as_str().as_bytes(),
            );
            let ghost r0 = r;
            let step = Step::Reply(field_response_transform(&TuringOp::FieldGet, r));
            assert(field_read_step(
                *old(engine),
                *engine,
                f.db@,
                f.document@,
                f.field@,
                step,
                r0,
            ));
            step
        },
        TuringCommands::FieldRemove(f) => {
            let r = engine.field_remove(
                f.db.as_str(),
                f.document.as_str(),
                f.field.as_str().as_bytes(),
            );
            let ghost r0 = r;
            let step = Step::Reply(field_response_transform(&TuringOp::FieldRemove, r));
            assert(field_remove_step(
                *old(engine),
                *engine,
                f.db@,
                f.document@,
                f.field@,
                step,
                r0,
            ));
            step
        },
        TuringCommands::FieldModify(f) => {
            let r = engine.field_modify(
                f.db.as_str(),
                f.document.as_str(),
                f.field.as_str().as_bytes(),
                f.data.as_slice(),
            );
            let ghost r0 = r;
            let step = Step::Reply(field_response_transform(&TuringOp::FieldModify, r));
            assert(field_modify_step(
                *old(engine),
                *engine,
                f.db@,
                f.document@,
                f.field@,
                f.data@,
                step,
                r0,
            ));
            step
        },
        TuringCommands::FieldList(d) => {
            let r = engine.field_list(d.db.as_str(), d.document.as_str());
            let ghost r0 = r;
            let step = Step::Reply(field_response_transform(&TuringOp::FieldList, r));
            assert(field_list_step(*old(engine), *engine, d, step, r0));
            step
        },
    }
}

/// The reply once work on a directory is done, where it only reports what
/// the work came to.
pub open spec fn done_view(
    level: Level,
    op: TuringOp,
    done: OutcomeView,
    result: Result<(), IoErrors>,
) -> OutcomeView {
    match result {
        Ok(_) => done,
        Err(kind) => transform_view(level, op, Err(TuringDbError::Io(kind))),
    }
}

/// What `complete` comes to for `CreateDb`, where the repository came to
/// `r`.
pub open spec fn db_made_step(
    before: TuringEngine,
    after: TuringEngine,
    name: Seq<char>,
    outcome: OutcomeView,
    r: Result<OpsOutcome, TuringDbError>,
) -> bool {
    &&& db_create_post(before, after, name, r)
    &&& outcome == transform_view(Level::Db, TuringOp::DbCreate, r)
}

/// What `complete` comes to for `RemoveDb` once the directory is removed,
/// where the repository came to `r`.
pub open spec fn db_gone_step(
    before: TuringEngine,
    after: TuringEngine,
    name: Seq<char>,
    outcome: OutcomeView,
    r: Result<OpsOutcome, TuringDbError>,
) -> bool {
    &&& db_drop_post(before, after, name, r)
    &&& outcome == transform_view(Level::Db, TuringOp::DbDrop, r)
}

/// What `complete` comes to for `RemoveDocument` once the directory is
/// removed, where the repository came to `r`.
pub open spec fn doc_gone_step(
    before: TuringEngine,
    after: TuringEngine,
    d: DocumentOnly,
    outcome: OutcomeView,
    r: Result<OpsOutcome, TuringDbError>,
) -> bool {
    &&& doc_drop_post(before, after, d.db@, d.document@, r)
    &&& outcome == transform_view(Level::Document, TuringOp::DocumentDrop, r)
}

/// What `complete` comes to. Where a directory was removed, what it held is
/// let go; where the removal failed, the reply is the failure and nothing
/// is let go.
pub open spec fn complete_post(
    before: TuringEngine,
    after: TuringEngine,
    work: DirWork,
    result: Result<(), IoErrors>,
    outcome: OutcomeView,
) -> bool {
    match work {
        DirWork::CreateRepo => after.same_as(before) && outcome == done_view(
            Level::Repo,
            TuringOp::RepoCreate,
            OutcomeView::RepoCreated,
            result,
        ),
        DirWork::RemoveRepo => match result {
            Ok(_) => after.has_none() && after.root() == before.root() && outcome
                == OutcomeView::RepoDropped,
            Err(kind) => after.same_as(before) && outcome == transform_view(
                Level::Repo,
                TuringOp::RepoDrop,
                Err(TuringDbError::Io(kind)),
            ),
        },
        DirWork::CreateDb(name) => match result {
            Ok(_) => exists|r: Result<OpsOutcome, TuringDbError>| #[trigger]
                db_made_step(before, after, name@, outcome, r),
            // Without the root directory there is no place for the database.
            Err(IoErrors::NotFound) => after.same_as(before) && outcome
                == OutcomeView::RepoNotFound,
            Err(kind) => after.same_as(before) && outcome == transform_view(
                Level::Db,
                TuringOp::DbCreate,
                Err(TuringDbError::Io(kind)),
            ),
        },
        DirWork::RemoveDb(name) => match result {
            Ok(_) => exists|r: Result<OpsOutcome, TuringDbError>| #[trigger]
                db_gone_step(before, after, name@, outcome, r),
            Err(kind) => after.same_as(before) && outcome == transform_view(
                Level::Db,
                TuringOp::DbDrop,
                Err(TuringDbError::Io(kind)),
            ),
        },
        DirWork::RemoveDocument(d) => match result {
            Ok(_) => exists|r: Result<OpsOutcome, TuringDbError>| #[trigger]
                doc_gone_step(before, after, d, outcome, r),
            Err(kind) => after.same_as(before) && outcome == transform_view(
                Level::Document,
                TuringOp::DocumentDrop,
                Err(TuringDbError::Io(kind)),
            ),
        },
        DirWork::Sweep(_, reply) => after.same_as(before) && outcome == reply@,
        DirWork::Rollback(_, reply) => after.same_as(before) && outcome == reply@,
    }
}

/// Takes the result of work on a directory and gives the reply to the
/// command that needed it. What a removed directory held is let go; after
/// a failed removal it stays. A database whose directory was made is taken
/// into the repository; one whose directory could not be made is not, and
/// where it could not be made for want of the root directory, the reply is
/// that there is no repository.
pub fn complete(engine: &mut TuringEngine, work: DirWork, result: Result<(), IoErrors>) -> (o:
    OpsOutcome)
    requires
        old(engine).wf(),
    ensures
        final(engine).wf(),
        complete_post(*old(engine), *final(engine), work, result, o@),
{
    match work {
        DirWork::CreateRepo => match result {
            Ok(_) => OpsOutcome::RepoCreated,
            Err(kind) => repo_response_transform(
                &TuringOp::RepoCreate,
                Err(TuringDbError::Io(kind)),
            ),
        },
        DirWork::RemoveRepo => match result {
            Ok(_) => {
                engine.clear();
                OpsOutcome::RepoDropped
            },
            Err(kind) => repo_response_transform(&TuringOp::RepoDrop, Err(TuringDbError::Io(kind))),
        },
        DirWork::CreateDb(name) => match result {
            Ok(_) => {
                let r = engine.db_create(name.as_str());
                let ghost r0 = r;
                let o = db_response_transform(&TuringOp::DbCreate, r);
                assert(db_made_step(*old(engine), *engine, name@, o@, r0));
                o
            },
            Err(IoErrors::NotFound) => OpsOutcome::RepoNotFound,
            Err(kind) => db_response_transform(&TuringOp::DbCreate, Err(TuringDbError::Io(kind))),
        },
        DirWork::RemoveDb(name) => match result {
            Ok(_) => {
                let r = engine.db_drop(name.as_str());
                let ghost r0 = r;
                let o = db_response_transform(&TuringOp::DbDrop, r);
                assert(db_gone_step(*old(engine), *engine, name@, o@, r0));
                o
            },
            Err(kind) => db_response_transform(&TuringOp::DbDrop, Err(TuringDbError::Io(kind))),
        },
        DirWork::RemoveDocument(d) => match result {
            Ok(_) => {
                let r = engine.doc_drop(d.db.as_str(), d.document.as_str());
                let ghost r0 = r;
                let o = document_response_transform(&TuringOp::DocumentDrop, r);
                assert(doc_gone_step(*old(engine), *engine, d, o@, r0));
                o
            },
            Err(kind) => document_response_transform(
                &TuringOp::DocumentDrop,
                Err(TuringDbError::Io(kind)),
            ),
        },
        DirWork::Sweep(_, reply) => reply,
        DirWork::Rollback(_, reply) => reply,
    }
}

/// An insert with an empty payload is answered with an error message that
/// names the operation and the empty payload, and changes nothing in the
/// document.
pub proof fn lemma_empty_payload_refused(
    before: TuringEngine,
    after: TuringEngine,
    db: Seq<char>,
    document: Seq<char>,
    field: Seq<char>,
    step: Step,
    r: Result<OpsOutcome, TuringDbError>,
)
    requires
        before.has_db(db),
        before.db(db).has(document),
        field.len() > 0,
        field_insert_step(before, after, db, document, field, Seq::<u8>::empty(), step, r),
    ensures
        replies(
            step,
            OutcomeView::EncounteredErrors(
                error_message(TuringOp::FieldInsert, "DATA_FIELD_EMPTY"@),
            ),
        ),
        after.db(db).named(document) == before.db(db).named(document),
{
    lemma_empty_text(field);
}

/// Flushed before acknowledged: where the reply to a command that writes a
/// field says that the field was inserted, dropped or modified, the document
/// is there, and all that was written to it is on stable storage.
pub proof fn lemma_acknowledged_write_flushed(
    before: TuringEngine,
    after: TuringEngine,
    db: Seq<char>,
    document: Seq<char>,
    field: Seq<char>,
    data: Seq<u8>,
    step: Step,
    r: Result<OpsOutcome, TuringDbError>,
)
    requires
        ({
            ||| field_insert_step(before, after, db, document, field, data, step, r) && replies(
                step,
                OutcomeView::FieldInserted,
            )
            ||| field_remove_step(before, after, db, document, field, step, r) && replies(
                step,
                OutcomeView::FieldDropped,
            )
            ||| field_modify_step(before, after, db, document, field, data, step, r) && replies(
                step,
                OutcomeView::FieldModified,
            )
        }),
    ensures
        after.has_db(db),
        after.db(db).has(document),
        after.db(db).named(document).settled(),
{
}

/// After a failed removal of its directory the repository still has the
/// document, and after a failed removal of a database's directory the
/// database.
pub proof fn lemma_failed_removal_keeps(
    before: TuringEngine,
    after: TuringEngine,
    work: DirWork,
    kind: IoErrors,
    outcome: OutcomeView,
)
    requires
        complete_post(before, after, work, Err(kind), outcome),
    ensures
        work matches DirWork::RemoveDocument(d) ==> (before.has_db(d.db@) && before.db(d.db@).has(
            d.document@,
        ) ==> after.has_db(d.db@) && after.db(d.db@).has(d.document@)),
        work matches DirWork::RemoveDb(name) ==> (before.has_db(name@) ==> after.has_db(name@)),
        work is RemoveRepo ==> forall|name: Seq<char>| before.has_db(name) ==> after.has_db(name),
{
}

} // verus!
