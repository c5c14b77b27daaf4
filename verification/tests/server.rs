use turingdb::commands::{DocumentOnly, FieldNoData, FieldWithData, TuringCommands, TuringOp};
use turingdb::connection::{frame, refuse, Connection, Next, BUFFER_DATA_CAPACITY};
use turingdb::engine::{DbDir, DirEntry, TuringEngine};
use turingdb::errors::{IoErrors, OpsErrors, TuringDbError};
use turingdb::names::store_path;
use turingdb::outcome::OpsOutcome;
use turingdb::reply::{decode_outcome, encode_outcome};
use turingdb::server::{
    complete, db_response_transform, document_response_transform, field_response_transform,
    format_error, process_command, repo_response_transform, response_transform, DirWork, Level,
    Step,
};
use turingdb::store::StoreFault;
use turingdb::wire::encode_command;
use std::io::ErrorKind;

fn scratch(tag: &str) -> String {
    let nanos = std::time::SystemTime::now()
        .duration_since(std::time::UNIX_EPOCH)
        .unwrap()
        .as_nanos();
    format!("/tmp/turingdb-server-{}-{}", tag, nanos)
}

fn cleanup(path: &str) {
    let _ = smol::block_on(smol::fs::remove_dir_all(path));
}

fn is_there(path: &str) -> bool {
    smol::block_on(smol::fs::metadata(path)).is_ok()
}

/// Does the work on the directories as a server would.
fn perform(root: &str, work: &DirWork) -> Result<(), IoErrors> {
    let done = match work {
        DirWork::CreateRepo => smol::block_on(smol::fs::create_dir(root)),
        DirWork::RemoveRepo => smol::block_on(smol::fs::remove_dir_all(root)),
        DirWork::CreateDb(db) => smol::block_on(smol::fs::create_dir(format!("{}/{}", root, db))),
        DirWork::RemoveDb(db) => {
            smol::block_on(smol::fs::remove_dir_all(format!("{}/{}", root, db)))
        }
        DirWork::RemoveDocument(d) | DirWork::Rollback(d, _) => {
            smol::block_on(smol::fs::remove_dir_all(store_path(root, &d.db, &d.document)))
        }
        DirWork::Sweep(d, _) => {
            let place = store_path(root, &d.db, &d.document);
            let _ = smol::block_on(smol::fs::remove_dir(format!("{}/blobs", place)));
            smol::block_on(smol::fs::remove_dir(place))
        }
    };
    done.map_err(|e| IoErrors::from_kind(e.kind()))
}

fn run(engine: &mut TuringEngine, command: TuringCommands) -> OpsOutcome {
    match process_command(engine, command) {
        Step::Reply(outcome) => outcome,
        Step::Io(work) => {
            let result = perform(engine.get_repo_dir().clone().as_str(), &work);
            complete(engine, work, result)
        }
    }
}

fn doc0() -> DocumentOnly {
    DocumentOnly { db: "db0".into(), document: "doc0".into() }
}

fn field0() -> FieldNoData {
    FieldNoData { db: "db0".into(), document: "doc0".into(), field: "field0".into() }
}

fn field0_with(data: &[u8]) -> FieldWithData {
    FieldWithData {
        db: "db0".into(),
        document: "doc0".into(),
        field: "field0".into(),
        data: data.to_vec(),
    }
}

fn happy_path(engine: &mut TuringEngine) {
    assert_eq!(run(engine, TuringCommands::RepoCreate), OpsOutcome::RepoCreated);
    assert_eq!(run(engine, TuringCommands::DbCreate("db0".into())), OpsOutcome::DbCreated);
    assert_eq!(run(engine, TuringCommands::DocumentCreate(doc0())), OpsOutcome::DocumentCreated);
    assert_eq!(
        run(engine, TuringCommands::FieldInsert(field0_with(b"hello"))),
        OpsOutcome::FieldInserted
    );
    assert_eq!(
        run(engine, TuringCommands::FieldRead(field0())),
        OpsOutcome::FieldContents(b"hello".to_vec())
    );
}

#[test]
fn error_messages_name_the_operation_and_the_failure() {
    assert_eq!(
        format_error(&TuringOp::FieldInsert, "DATA_FIELD_EMPTY"),
        OpsOutcome::EncounteredErrors("[TuringDB::<FieldInsert>::(ERROR)-DATA_FIELD_EMPTY]".into())
    );
    assert_eq!(
        format_error(&TuringOp::DbCreate, ""),
        OpsOutcome::EncounteredErrors("[TuringDB::<DbCreate>::(ERROR)-]".into())
    );
}

#[test]
fn failures_turn_into_replies_by_level() {
    let op = TuringOp::DbCreate;
    let io = |kind| Err(TuringDbError::Io(kind));
    assert_eq!(repo_response_transform(&op, io(IoErrors::NotFound)), OpsOutcome::RepoNotFound);
    assert_eq!(db_response_transform(&op, io(IoErrors::NotFound)), OpsOutcome::DbNotFound);
    assert_eq!(
        document_response_transform(&op, io(IoErrors::NotFound)),
        OpsOutcome::DocumentNotFound
    );
    assert_eq!(field_response_transform(&op, io(IoErrors::NotFound)), OpsOutcome::FieldNotFound);
    assert_eq!(
        repo_response_transform(&op, io(IoErrors::AlreadyExists)),
        OpsOutcome::RepoAlreadyExists
    );
    assert_eq!(db_response_transform(&op, io(IoErrors::AlreadyExists)), OpsOutcome::DbAlreadyExists);
    assert_eq!(
        document_response_transform(&op, io(IoErrors::AlreadyExists)),
        OpsOutcome::DocumentAlreadyExists
    );
    assert_eq!(
        field_response_transform(&op, io(IoErrors::AlreadyExists)),
        OpsOutcome::FieldAlreadyExists
    );
    for level in [Level::Repo, Level::Db, Level::Document, Level::Field] {
        assert_eq!(
            response_transform(level, &op, io(IoErrors::PermissionDenied)),
            OpsOutcome::PermissionDenied
        );
        assert_eq!(
            response_transform(level, &op, io(IoErrors::BrokenPipe)),
            OpsOutcome::EncounteredErrors("[TuringDB::<DbCreate>::(ERROR)-BrokenPipe]".into())
        );
        assert_eq!(
            response_transform(level, &op, io(IoErrors::TimedOut)),
            OpsOutcome::EncounteredErrors("[TuringDB::<DbCreate>::(ERROR)-TimedOut]".into())
        );
        assert_eq!(
            response_transform(level, &op, io(IoErrors::Other)),
            OpsOutcome::EncounteredErrors("[TuringDB::<DbCreate>::(ERROR)-Other]".into())
        );
        assert_eq!(response_transform(level, &op, Ok(OpsOutcome::Committed)), OpsOutcome::Committed);
        assert_eq!(
            response_transform(level, &op, Err(TuringDbError::DocumentAlreadyExists)),
            OpsOutcome::DocumentAlreadyExists
        );
        assert_eq!(
            response_transform(level, &op, Err(TuringDbError::CorruptRecord)),
            OpsOutcome::EncounteredErrors("[TuringDB::<DbCreate>::(ERROR)-CORRUPT_RECORD]".into())
        );
        assert_eq!(
            response_transform(level, &op, Err(TuringDbError::Bug("x".into()))),
            OpsOutcome::EncounteredErrors("[TuringDB::<DbCreate>::(ERROR)-BUG]".into())
        );
    }
}

#[test]
fn io_kinds_are_classified() {
    assert_eq!(IoErrors::from_kind(ErrorKind::NotFound), IoErrors::NotFound);
    assert_eq!(IoErrors::from_kind(ErrorKind::PermissionDenied), IoErrors::PermissionDenied);
    assert_eq!(IoErrors::from_kind(ErrorKind::ConnectionRefused), IoErrors::ConnectionRefused);
    assert_eq!(IoErrors::from_kind(ErrorKind::ConnectionReset), IoErrors::ConnectionReset);
    assert_eq!(IoErrors::from_kind(ErrorKind::ConnectionAborted), IoErrors::ConnectionAborted);
    assert_eq!(IoErrors::from_kind(ErrorKind::NotConnected), IoErrors::NotConnected);
    assert_eq!(IoErrors::from_kind(ErrorKind::AddrInUse), IoErrors::AddrInUse);
    assert_eq!(IoErrors::from_kind(ErrorKind::AddrNotAvailable), IoErrors::AddrNotAvailable);
    assert_eq!(IoErrors::from_kind(ErrorKind::BrokenPipe), IoErrors::BrokenPipe);
    assert_eq!(IoErrors::from_kind(ErrorKind::AlreadyExists), IoErrors::AlreadyExists);
    assert_eq!(IoErrors::from_kind(ErrorKind::WouldBlock), IoErrors::WouldBlock);
    assert_eq!(IoErrors::from_kind(ErrorKind::InvalidInput), IoErrors::InvalidInput);
    assert_eq!(IoErrors::from_kind(ErrorKind::InvalidData), IoErrors::InvalidData);
    assert_eq!(IoErrors::from_kind(ErrorKind::TimedOut), IoErrors::TimedOut);
    assert_eq!(IoErrors::from_kind(ErrorKind::WriteZero), IoErrors::WriteZero);
    assert_eq!(IoErrors::from_kind(ErrorKind::Interrupted), IoErrors::Interrupted);
    assert_eq!(IoErrors::from_kind(ErrorKind::UnexpectedEof), IoErrors::UnexpectedEof);
    assert_eq!(IoErrors::from_kind(ErrorKind::Other), IoErrors::Other);
    assert_eq!(IoErrors::from_kind(ErrorKind::OutOfMemory), IoErrors::Other);
    assert_eq!(IoErrors::NotFound.name(), "NotFound");
    assert_eq!(IoErrors::UnexpectedEof.name(), format!("{:?}", IoErrors::UnexpectedEof));
}

#[test]
fn store_faults_are_reported_by_kind() {
    assert_eq!(
        TuringDbError::from_fault(StoreFault::CollectionNotFound),
        TuringDbError::DocumentNoLongerExists
    );
    assert_eq!(
        TuringDbError::from_fault(StoreFault::Unsupported("why".into())),
        TuringDbError::SystemViolation("why".into())
    );
    assert_eq!(
        TuringDbError::from_fault(StoreFault::ReportableBug("what".into())),
        TuringDbError::Bug("what".into())
    );
    assert_eq!(
        TuringDbError::from_fault(StoreFault::Io(std::io::ErrorKind::PermissionDenied)),
        TuringDbError::Io(IoErrors::PermissionDenied)
    );
    assert_eq!(TuringDbError::from_fault(StoreFault::Corruption), TuringDbError::DocumentCorrupted);
    assert_eq!(TuringDbError::DocumentCorrupted.tag(), "DOCUMENT_CORRUPTED");
    assert_eq!(TuringDbError::Io(IoErrors::TimedOut).tag(), "TimedOut");
    assert_eq!(TuringDbError::EmptyData.tag(), "DATA_FIELD_EMPTY");
    assert_eq!(TuringDbError::DocumentUnfinished.tag(), "DOCUMENT_UNFINISHED");
    assert_eq!(
        document_response_transform(
            &TuringOp::DocumentCreate,
            Err(TuringDbError::DocumentUnfinished)
        ),
        OpsOutcome::EncounteredErrors(
            "[TuringDB::<DocumentCreate>::(ERROR)-DOCUMENT_UNFINISHED]".into()
        )
    );
    assert_eq!(
        document_response_transform(
            &TuringOp::DocumentCreate,
            Err(TuringDbError::DocumentAlreadyExists)
        ),
        OpsOutcome::DocumentAlreadyExists
    );
}

#[test]
fn happy_path_scenario() {
    let root = scratch("happy");
    let mut engine = TuringEngine::new(&root);
    happy_path(&mut engine);
    assert!(is_there(&format!("{}/db0/doc0", root)));
    drop(engine);
    cleanup(&root);
}

#[test]
fn conflict_scenario() {
    let root = scratch("conflict");
    let mut engine = TuringEngine::new(&root);
    happy_path(&mut engine);
    assert_eq!(
        run(&mut engine, TuringCommands::FieldInsert(field0_with(b"world"))),
        OpsOutcome::FieldAlreadyExists
    );
    assert_eq!(
        run(&mut engine, TuringCommands::FieldRead(field0())),
        OpsOutcome::FieldContents(b"hello".to_vec())
    );
    assert_eq!(
        run(&mut engine, TuringCommands::FieldModify(field0_with(b"world"))),
        OpsOutcome::FieldModified
    );
    assert_eq!(
        run(&mut engine, TuringCommands::FieldRead(field0())),
        OpsOutcome::FieldContents(b"world".to_vec())
    );
    drop(engine);
    cleanup(&root);
}

#[test]
fn recovery_scenario() {
    let root = scratch("restart");
    let mut engine = TuringEngine::new(&root);
    happy_path(&mut engine);
    drop(engine);
    let mut engine = TuringEngine::new(&root);
    let listing = vec![DbDir {
        entry: DirEntry { name: "db0".into(), is_dir: true },
        children: vec![DirEntry { name: "doc0".into(), is_dir: true }],
    }];
    assert_eq!(engine.repo_init(&listing), vec![]);
    assert_eq!(
        run(&mut engine, TuringCommands::FieldRead(field0())),
        OpsOutcome::FieldContents(b"hello".to_vec())
    );
    drop(engine);
    cleanup(&root);
}

#[test]
fn drop_cascade_scenario() {
    let root = scratch("cascade");
    let mut engine = TuringEngine::new(&root);
    happy_path(&mut engine);
    assert_eq!(run(&mut engine, TuringCommands::DbDrop("db0".into())), OpsOutcome::DbDropped);
    assert_eq!(run(&mut engine, TuringCommands::DocumentList("db0".into())), OpsOutcome::DbNotFound);
    assert!(!is_there(&format!("{}/db0", root)));
    assert!(is_there(&root));
    assert_eq!(run(&mut engine, TuringCommands::DbList), OpsOutcome::RepoEmpty);
    assert_eq!(run(&mut engine, TuringCommands::DbCreate("db0".into())), OpsOutcome::DbCreated);
    assert_eq!(run(&mut engine, TuringCommands::DocumentList("db0".into())), OpsOutcome::DbEmpty);
    drop(engine);
    cleanup(&root);
}

#[test]
fn insert_of_an_empty_payload_is_an_error() {
    let root = scratch("emptypayload");
    let mut engine = TuringEngine::new(&root);
    happy_path(&mut engine);
    let mut other = field0_with(b"");
    other.field = "field1".into();
    assert_eq!(
        run(&mut engine, TuringCommands::FieldInsert(other)),
        OpsOutcome::EncounteredErrors("[TuringDB::<FieldInsert>::(ERROR)-DATA_FIELD_EMPTY]".into())
    );
    let mut nameless = field0_with(b"x");
    nameless.field = "".into();
    assert_eq!(
        run(&mut engine, TuringCommands::FieldInsert(nameless)),
        OpsOutcome::EncounteredErrors("[TuringDB::<FieldInsert>::(ERROR)-FIELD_NAME_EMPTY]".into())
    );
    assert_eq!(
        run(&mut engine, TuringCommands::FieldList(doc0())),
        OpsOutcome::FieldList(vec![b"field0".to_vec()])
    );
    drop(engine);
    cleanup(&root);
}

#[test]
fn double_create_and_drop_of_absent_targets() {
    let root = scratch("double");
    let mut engine = TuringEngine::new(&root);
    happy_path(&mut engine);
    assert_eq!(run(&mut engine, TuringCommands::RepoCreate), OpsOutcome::RepoAlreadyExists);
    assert_eq!(run(&mut engine, TuringCommands::DbCreate("db0".into())), OpsOutcome::DbAlreadyExists);
    assert_eq!(
        run(&mut engine, TuringCommands::DocumentCreate(doc0())),
        OpsOutcome::DocumentAlreadyExists
    );
    assert_eq!(run(&mut engine, TuringCommands::DbDrop("nope".into())), OpsOutcome::DbNotFound);
    assert_eq!(
        run(
            &mut engine,
            TuringCommands::DocumentDrop(DocumentOnly { db: "db0".into(), document: "nope".into() })
        ),
        OpsOutcome::DocumentNotFound
    );
    assert_eq!(
        run(
            &mut engine,
            TuringCommands::DocumentDrop(DocumentOnly { db: "nope".into(), document: "doc0".into() })
        ),
        OpsOutcome::DbNotFound
    );
    let mut absent = field0();
    absent.field = "nope".into();
    assert_eq!(run(&mut engine, TuringCommands::FieldRemove(absent)), OpsOutcome::FieldNotFound);
    assert_eq!(run(&mut engine, TuringCommands::DbList), OpsOutcome::DbList(vec!["db0".into()]));
    assert_eq!(
        run(&mut engine, TuringCommands::DocumentList("db0".into())),
        OpsOutcome::DocumentList(vec!["doc0".into()])
    );
    assert_eq!(
        run(&mut engine, TuringCommands::FieldRead(field0())),
        OpsOutcome::FieldContents(b"hello".to_vec())
    );
    drop(engine);
    cleanup(&root);
}

#[test]
fn document_drop_removes_the_directory() {
    let root = scratch("docdrop");
    let mut engine = TuringEngine::new(&root);
    happy_path(&mut engine);
    assert_eq!(run(&mut engine, TuringCommands::DocumentDrop(doc0())), OpsOutcome::DocumentDropped);
    assert!(!is_there(&format!("{}/db0/doc0", root)));
    assert!(is_there(&format!("{}/db0", root)));
    assert_eq!(run(&mut engine, TuringCommands::DocumentList("db0".into())), OpsOutcome::DbEmpty);
    assert_eq!(run(&mut engine, TuringCommands::FieldRead(field0())), OpsOutcome::DocumentNotFound);
    assert_eq!(run(&mut engine, TuringCommands::DocumentCreate(doc0())), OpsOutcome::DocumentCreated);
    assert_eq!(run(&mut engine, TuringCommands::FieldList(doc0())), OpsOutcome::DocumentEmpty);
    drop(engine);
    cleanup(&root);
}

#[test]
fn repo_drop_removes_everything() {
    let root = scratch("repodrop");
    let mut engine = TuringEngine::new(&root);
    assert_eq!(run(&mut engine, TuringCommands::RepoDrop), OpsOutcome::RepoNotFound);
    happy_path(&mut engine);
    assert_eq!(run(&mut engine, TuringCommands::RepoDrop), OpsOutcome::RepoDropped);
    assert!(!is_there(&root));
    assert_eq!(run(&mut engine, TuringCommands::DbList), OpsOutcome::RepoEmpty);
    assert_eq!(run(&mut engine, TuringCommands::DbCreate("db0".into())), OpsOutcome::RepoNotFound);
    assert!(engine.is_empty());
}

#[test]
fn db_create_asks_for_the_directory_first() {
    let mut engine = TuringEngine::new("/tmp/turingdb-nowhere");
    let step = process_command(&mut engine, TuringCommands::DbCreate("db0".into()));
    assert_eq!(step, Step::Io(DirWork::CreateDb("db0".into())));
    assert!(engine.is_empty());
    let work = DirWork::CreateDb("db0".into());
    assert_eq!(
        complete(&mut engine, work.clone(), Err(IoErrors::PermissionDenied)),
        OpsOutcome::PermissionDenied
    );
    assert_eq!(
        complete(&mut engine, work.clone(), Err(IoErrors::AlreadyExists)),
        OpsOutcome::DbAlreadyExists
    );
    assert_eq!(complete(&mut engine, work.clone(), Err(IoErrors::NotFound)), OpsOutcome::RepoNotFound);
    assert!(engine.is_empty());
    assert_eq!(complete(&mut engine, work.clone(), Ok(())), OpsOutcome::DbCreated);
    assert!(engine.contains_db("db0"));
    assert_eq!(complete(&mut engine, work, Ok(())), OpsOutcome::DbAlreadyExists);
}

#[test]
fn names_are_validated_before_any_work() {
    let mut engine = TuringEngine::new("/tmp/turingdb-nowhere");
    assert_eq!(
        process_command(&mut engine, TuringCommands::DbCreate("".into())),
        Step::Reply(OpsOutcome::EncounteredErrors(
            "[TuringDB::<DbCreate>::(ERROR)-MISSING_DB_NAME]".into()
        ))
    );
    assert_eq!(
        process_command(&mut engine, TuringCommands::DbCreate("../up".into())),
        Step::Reply(OpsOutcome::EncounteredErrors(
            "[TuringDB::<DbCreate>::(ERROR)-INVALID_PATH_NAME]".into()
        ))
    );
    assert_eq!(
        process_command(&mut engine, TuringCommands::DbDrop("".into())),
        Step::Reply(OpsOutcome::EncounteredErrors(
            "[TuringDB::<DbDrop>::(ERROR)-MISSING_DB_NAME]".into()
        ))
    );
    assert_eq!(
        process_command(&mut engine, TuringCommands::RepoCreate),
        Step::Io(DirWork::CreateRepo)
    );
    assert_eq!(process_command(&mut engine, TuringCommands::RepoDrop), Step::Io(DirWork::RemoveRepo));
    assert_eq!(complete(&mut engine, DirWork::CreateRepo, Ok(())), OpsOutcome::RepoCreated);
    assert_eq!(complete(&mut engine, DirWork::RemoveRepo, Ok(())), OpsOutcome::RepoDropped);
    assert_eq!(
        complete(&mut engine, DirWork::RemoveDb("x".into()), Err(IoErrors::TimedOut)),
        OpsOutcome::EncounteredErrors("[TuringDB::<DbDrop>::(ERROR)-TimedOut]".into())
    );
    assert_eq!(
        complete(&mut engine, DirWork::RemoveDocument(doc0()), Err(IoErrors::NotFound)),
        OpsOutcome::DocumentNotFound
    );
    assert_eq!(
        complete(
            &mut engine,
            DirWork::Rollback(doc0(), OpsOutcome::PermissionDenied),
            Err(IoErrors::NotFound)
        ),
        OpsOutcome::PermissionDenied
    );
}

#[test]
fn faults_of_the_wire_are_reported_by_message() {
    assert_eq!(OpsErrors::BufferCapacityExceeded16Mb.message(), "BUFFER_CAPACITY_EXCEEDED_16MB");
    assert_eq!(OpsErrors::IntegrityCorrupted.message(), "COMMAND_NOT_READABLE");
    assert_eq!(
        refuse(OpsErrors::BufferCapacityExceeded16Mb),
        OpsOutcome::EncounteredErrors("BUFFER_CAPACITY_EXCEEDED_16MB".into())
    );
}

#[test]
fn frames_carry_their_length() {
    assert_eq!(frame(b""), vec![0, 0, 0, 0, 0, 0, 0, 0]);
    assert_eq!(frame(b"abc"), vec![3, 0, 0, 0, 0, 0, 0, 0, b'a', b'b', b'c']);
    assert_eq!(BUFFER_DATA_CAPACITY, 16 * 1024 * 1024);
}

#[test]
fn requests_arrive_in_pieces() {
    let mut connection = Connection::new();
    assert_eq!(connection.next(), Next::Read);
    let first = frame(b"first");
    let second = frame(b"second request");
    let mut stream = first.clone();
    stream.extend_from_slice(&second);
    connection.receive(&stream[..3]);
    assert_eq!(connection.next(), Next::Read);
    connection.receive(&stream[3..10]);
    assert_eq!(connection.next(), Next::Read);
    connection.receive(&stream[10..20]);
    assert_eq!(connection.next(), Next::Handle(b"first".to_vec()));
    assert_eq!(connection.next(), Next::Read);
    connection.receive(&stream[20..]);
    assert_eq!(connection.next(), Next::Handle(b"second request".to_vec()));
    assert_eq!(connection.next(), Next::Read);
    connection.receive(&frame(b""));
    connection.receive(&frame(b"x"));
    assert_eq!(connection.next(), Next::Handle(vec![]));
    assert_eq!(connection.next(), Next::Handle(b"x".to_vec()));
    assert_eq!(connection.next(), Next::Read);
}

#[test]
fn zero_byte_read_closes_cleanly() {
    let mut connection = Connection::new();
    connection.hang_up();
    assert_eq!(connection.next(), Next::Close);
    assert_eq!(connection.next(), Next::Close);

    let mut connection = Connection::new();
    connection.receive(&frame(b"whole")[..9]);
    assert_eq!(connection.next(), Next::Read);
    connection.hang_up();
    assert_eq!(connection.next(), Next::Close);
    connection.receive(&frame(b"late"));
    assert_eq!(connection.next(), Next::Close);
}

#[test]
fn oversize_frame_gets_one_error_reply_and_the_stream_is_closed() {
    let mut connection = Connection::new();
    let length: u64 = 17 * 1024 * 1024;
    connection.receive(&length.to_le_bytes());
    assert_eq!(
        connection.next(),
        Next::Refuse(OpsOutcome::EncounteredErrors("BUFFER_CAPACITY_EXCEEDED_16MB".into()))
    );
    assert_eq!(connection.next(), Next::Close);
    connection.receive(&frame(b"more"));
    assert_eq!(connection.next(), Next::Close);
    connection.hang_up();
    assert_eq!(connection.next(), Next::Close);
}

#[test]
fn the_largest_frame_is_taken() {
    let mut connection = Connection::new();
    let length: u64 = BUFFER_DATA_CAPACITY as u64;
    connection.receive(&length.to_le_bytes());
    assert_eq!(connection.next(), Next::Read);
    let mut connection = Connection::new();
    connection.receive(&(length + 1).to_le_bytes());
    assert_eq!(
        connection.next(),
        Next::Refuse(OpsOutcome::EncounteredErrors("BUFFER_CAPACITY_EXCEEDED_16MB".into()))
    );
    let mut connection = Connection::new();
    let payload = vec![7u8; BUFFER_DATA_CAPACITY];
    connection.receive(&frame(&payload));
    assert_eq!(connection.next(), Next::Handle(payload));
    assert_eq!(connection.next(), Next::Read);
}

#[test]
fn a_payload_that_is_no_command_ends_the_connection() {
    let mut engine = TuringEngine::new("/tmp/turingdb-nowhere");
    let mut connection = Connection::new();
    connection.receive(&frame(&[0xee, 1, 2, 3]));
    let payload = match connection.next() {
        Next::Handle(payload) => payload,
        other => panic!("unexpected {:?}", other),
    };
    assert_eq!(
        connection.handle(&mut engine, &payload),
        Step::Reply(OpsOutcome::EncounteredErrors(
            "[TuringDB::<NotSupported>::(ERROR)-COMMAND_NOT_READABLE]".into()
        ))
    );
    assert_eq!(connection.next(), Next::Close);
    assert!(engine.is_empty());

    // A command that is cut short names the operation it asked for.
    let mut connection = Connection::new();
    assert_eq!(
        connection.handle(&mut engine, &[0x08, 3, 0, 0, 0]),
        Step::Reply(OpsOutcome::EncounteredErrors(
            "[TuringDB::<FieldInsert>::(ERROR)-COMMAND_NOT_READABLE]".into()
        ))
    );
    assert_eq!(connection.next(), Next::Close);
    let mut connection = Connection::new();
    assert_eq!(
        connection.handle(&mut engine, &[]),
        Step::Reply(OpsOutcome::EncounteredErrors(
            "[TuringDB::<NotSupported>::(ERROR)-COMMAND_NOT_READABLE]".into()
        ))
    );
}

#[test]
fn a_failed_removal_lets_nothing_go() {
    let root = scratch("keeps");
    let mut engine = TuringEngine::new(&root);
    happy_path(&mut engine);

    let step = process_command(&mut engine, TuringCommands::DocumentDrop(doc0()));
    assert_eq!(step, Step::Io(DirWork::RemoveDocument(doc0())));
    assert_eq!(
        complete(&mut engine, DirWork::RemoveDocument(doc0()), Err(IoErrors::PermissionDenied)),
        OpsOutcome::PermissionDenied
    );
    assert_eq!(
        run(&mut engine, TuringCommands::DocumentList("db0".into())),
        OpsOutcome::DocumentList(vec!["doc0".into()])
    );
    assert_eq!(
        run(&mut engine, TuringCommands::FieldRead(field0())),
        OpsOutcome::FieldContents(b"hello".to_vec())
    );

    let step = process_command(&mut engine, TuringCommands::DbDrop("db0".into()));
    assert_eq!(step, Step::Io(DirWork::RemoveDb("db0".into())));
    assert_eq!(
        complete(&mut engine, DirWork::RemoveDb("db0".into()), Err(IoErrors::TimedOut)),
        OpsOutcome::EncounteredErrors("[TuringDB::<DbDrop>::(ERROR)-TimedOut]".into())
    );
    assert_eq!(run(&mut engine, TuringCommands::DbList), OpsOutcome::DbList(vec!["db0".into()]));

    assert_eq!(process_command(&mut engine, TuringCommands::RepoDrop), Step::Io(DirWork::RemoveRepo));
    assert_eq!(
        complete(&mut engine, DirWork::RemoveRepo, Err(IoErrors::PermissionDenied)),
        OpsOutcome::PermissionDenied
    );
    assert_eq!(
        run(&mut engine, TuringCommands::FieldRead(field0())),
        OpsOutcome::FieldContents(b"hello".to_vec())
    );
    assert!(is_there(&format!("{}/db0/doc0", root)));

    assert_eq!(run(&mut engine, TuringCommands::DocumentDrop(doc0())), OpsOutcome::DocumentDropped);
    assert_eq!(run(&mut engine, TuringCommands::DbDrop("db0".into())), OpsOutcome::DbDropped);
    assert!(engine.is_empty());
    drop(engine);
    cleanup(&root);
}

#[test]
fn a_store_that_cannot_be_made_is_swept() {
    let root = scratch("sweep");
    let mut engine = TuringEngine::new(&root);
    assert_eq!(run(&mut engine, TuringCommands::RepoCreate), OpsOutcome::RepoCreated);
    assert_eq!(run(&mut engine, TuringCommands::DbCreate("db0".into())), OpsOutcome::DbCreated);
    // A file stands where the directory of the document would be.
    smol::block_on(smol::fs::write(format!("{}/db0/doc0", root), b"in the way")).unwrap();
    let step = process_command(&mut engine, TuringCommands::DocumentCreate(doc0()));
    let work = match step {
        Step::Io(work) => work,
        other => panic!("unexpected {:?}", other),
    };
    assert!(matches!(&work, DirWork::Sweep(d, OpsOutcome::EncounteredErrors(_)) if *d == doc0()));
    let result = perform(&root, &work);
    assert!(result.is_err());
    assert!(matches!(complete(&mut engine, work, result), OpsOutcome::EncounteredErrors(_)));
    assert!(is_there(&format!("{}/db0/doc0", root)));
    assert_eq!(run(&mut engine, TuringCommands::DocumentList("db0".into())), OpsOutcome::DbEmpty);
    drop(engine);
    cleanup(&root);
}

#[test]
fn documents_are_kept_where_the_layout_says() {
    let root = scratch("layout");
    let mut engine = TuringEngine::new(&root);
    happy_path(&mut engine);
    assert_eq!(store_path(&root, "db0", "doc0"), format!("{}/db0/doc0", root));
    assert_eq!(store_path("r", "d", "c"), "r/d/c");
    assert!(is_there(&format!("{}/db0/doc0/db", root)));
    assert!(!is_there(&format!("{}/doc0", root)));
    drop(engine);
    cleanup(&root);
}

#[test]
fn a_whole_exchange_over_frames() {
    let root = scratch("exchange");
    let mut engine = TuringEngine::new(&root);
    let mut connection = Connection::new();
    let commands = vec![
        TuringCommands::RepoCreate,
        TuringCommands::DbCreate("db0".into()),
        TuringCommands::DocumentCreate(doc0()),
        TuringCommands::FieldInsert(field0_with(b"hello")),
        TuringCommands::FieldRead(field0()),
        TuringCommands::FieldList(doc0()),
        TuringCommands::DbList,
    ];
    for command in &commands {
        connection.receive(&frame(&encode_command(command)));
    }
    let mut replies = Vec::new();
    loop {
        match connection.next() {
            Next::Handle(payload) => {
                let outcome = match connection.handle(&mut engine, &payload) {
                    Step::Reply(outcome) => outcome,
                    Step::Io(work) => {
                        let result = perform(&root, &work);
                        complete(&mut engine, work, result)
                    }
                };
                replies.push(frame(&encode_outcome(&outcome)));
            }
            Next::Read => break,
            other => panic!("unexpected {:?}", other),
        }
    }
    let expected = vec![
        OpsOutcome::RepoCreated,
        OpsOutcome::DbCreated,
        OpsOutcome::DocumentCreated,
        OpsOutcome::FieldInserted,
        OpsOutcome::FieldContents(b"hello".to_vec()),
        OpsOutcome::FieldList(vec![b"field0".to_vec()]),
        OpsOutcome::DbList(vec!["db0".into()]),
    ];
    assert_eq!(replies.len(), expected.len());
    let mut client = Connection::new();
    for reply in &replies {
        client.receive(reply);
    }
    for outcome in expected {
        match client.next() {
            Next::Handle(payload) => assert_eq!(decode_outcome(&payload), Some(outcome)),
            other => panic!("unexpected {:?}", other),
        }
    }
    assert_eq!(client.next(), Next::Read);
    connection.hang_up();
    assert_eq!(connection.next(), Next::Close);
    drop(engine);
    cleanup(&root);
}
