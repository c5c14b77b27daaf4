use turingdb::engine::{DbDir, DirEntry, TuringEngine};
use turingdb::errors::{IoErrors, TuringDbError};
use turingdb::database::Tdb;
use turingdb::document::{read_outcome, refused_open, renew_record, settle_open, Document};
use turingdb::keys::KeyList;
use turingdb::fields::{FieldData, Timestamp};
use turingdb::outcome::OpsOutcome;

fn scratch(tag: &str) -> String {
    let nanos = std::time::SystemTime::now()
        .duration_since(std::time::UNIX_EPOCH)
        .unwrap()
        .as_nanos();
    format!("/tmp/turingdb-engine-{}-{}", tag, nanos)
}

fn cleanup(path: &str) {
    let _ = smol::block_on(smol::fs::remove_dir_all(path));
}

fn dir(name: &str) -> DirEntry {
    DirEntry { name: name.to_string(), is_dir: true }
}

fn file(name: &str) -> DirEntry {
    DirEntry { name: name.to_string(), is_dir: false }
}

fn engine_with_doc(root: &str) -> TuringEngine {
    let mut engine = TuringEngine::new(root);
    assert_eq!(engine.db_create("db0"), Ok(OpsOutcome::DbCreated));
    assert_eq!(engine.doc_create("db0", "doc0"), Ok(OpsOutcome::DocumentCreated));
    engine
}

#[test]
fn new_engine_is_empty() {
    let engine = TuringEngine::new("/tmp/turingdb-nowhere");
    assert!(engine.is_empty());
    assert_eq!(engine.get_repo_dir(), "/tmp/turingdb-nowhere");
    assert_eq!(engine.db_list(), OpsOutcome::RepoEmpty);
    assert_eq!(engine.db_list_sorted(), OpsOutcome::RepoEmpty);
    assert!(!engine.contains_db("db0"));
}

#[test]
fn db_create_list_and_drop() {
    let mut engine = TuringEngine::new("/tmp/turingdb-nowhere");
    assert_eq!(engine.db_create("zeta"), Ok(OpsOutcome::DbCreated));
    assert_eq!(engine.db_create("alpha"), Ok(OpsOutcome::DbCreated));
    assert_eq!(engine.db_create("mid"), Ok(OpsOutcome::DbCreated));
    assert!(!engine.is_empty());
    assert!(engine.contains_db("alpha"));
    assert_eq!(
        engine.db_list_sorted(),
        OpsOutcome::DbList(vec!["alpha".into(), "mid".into(), "zeta".into()])
    );
    match engine.db_list() {
        OpsOutcome::DbList(mut names) => {
            names.sort();
            assert_eq!(names, vec!["alpha", "mid", "zeta"]);
        }
        other => panic!("unexpected {:?}", other),
    }
    assert_eq!(engine.db_drop("mid"), Ok(OpsOutcome::DbDropped));
    assert!(!engine.contains_db("mid"));
    assert_eq!(engine.db_list_sorted(), OpsOutcome::DbList(vec!["alpha".into(), "zeta".into()]));
    assert_eq!(engine.db_drop("alpha"), Ok(OpsOutcome::DbDropped));
    assert_eq!(engine.db_drop("zeta"), Ok(OpsOutcome::DbDropped));
    assert!(engine.is_empty());
    assert_eq!(engine.db_list(), OpsOutcome::RepoEmpty);
}

#[test]
fn double_db_create_changes_nothing() {
    let mut engine = TuringEngine::new("/tmp/turingdb-nowhere");
    assert_eq!(engine.db_create("db0"), Ok(OpsOutcome::DbCreated));
    assert_eq!(engine.db_create("db0"), Ok(OpsOutcome::DbAlreadyExists));
    assert_eq!(engine.db_list_sorted(), OpsOutcome::DbList(vec!["db0".into()]));
    assert_eq!(engine.doc_list("db0"), OpsOutcome::DbEmpty);
}

#[test]
fn drop_of_absent_db_changes_nothing() {
    let mut engine = TuringEngine::new("/tmp/turingdb-nowhere");
    assert_eq!(engine.db_drop("db0"), Ok(OpsOutcome::DbNotFound));
    assert_eq!(engine.db_create("db1"), Ok(OpsOutcome::DbCreated));
    assert_eq!(engine.db_drop("db0"), Ok(OpsOutcome::DbNotFound));
    assert_eq!(engine.db_list_sorted(), OpsOutcome::DbList(vec!["db1".into()]));
}

#[test]
fn create_after_drop_succeeds() {
    let mut engine = TuringEngine::new("/tmp/turingdb-nowhere");
    assert_eq!(engine.db_create("db0"), Ok(OpsOutcome::DbCreated));
    assert_eq!(engine.db_drop("db0"), Ok(OpsOutcome::DbDropped));
    assert_eq!(engine.db_create("db0"), Ok(OpsOutcome::DbCreated));
    assert_eq!(engine.doc_list("db0"), OpsOutcome::DbEmpty);
}

#[test]
fn slots_are_used_again() {
    let mut engine = TuringEngine::new("/tmp/turingdb-nowhere");
    for round in 0..50 {
        let a = format!("a{}", round);
        let b = format!("b{}", round);
        assert_eq!(engine.db_create(&a), Ok(OpsOutcome::DbCreated));
        assert_eq!(engine.db_create(&b), Ok(OpsOutcome::DbCreated));
        assert_eq!(engine.db_drop(&a), Ok(OpsOutcome::DbDropped));
        assert!(engine.contains_db(&b));
        assert!(!engine.contains_db(&a));
    }
    match engine.db_list_sorted() {
        OpsOutcome::DbList(names) => assert_eq!(names.len(), 50),
        other => panic!("unexpected {:?}", other),
    }
}

#[test]
fn db_names_are_validated() {
    let mut engine = TuringEngine::new("/tmp/turingdb-nowhere");
    assert_eq!(engine.db_create(""), Err(TuringDbError::DbNameMissing));
    assert_eq!(engine.db_create(".."), Err(TuringDbError::InvalidPathUnicodeName));
    assert_eq!(engine.db_create(".hidden"), Err(TuringDbError::InvalidPathUnicodeName));
    assert_eq!(engine.db_create("a/b"), Err(TuringDbError::InvalidPathUnicodeName));
    assert_eq!(engine.db_create("/etc"), Err(TuringDbError::InvalidPathUnicodeName));
    assert_eq!(engine.db_drop(""), Err(TuringDbError::DbNameMissing));
    assert!(engine.is_empty());
}

#[test]
fn operations_without_the_database() {
    let mut engine = TuringEngine::new("/tmp/turingdb-nowhere");
    assert_eq!(engine.doc_create("db0", "doc0"), Ok(OpsOutcome::DbNotFound));
    assert_eq!(engine.doc_drop("db0", "doc0"), Ok(OpsOutcome::DbNotFound));
    assert_eq!(engine.doc_list("db0"), OpsOutcome::DbNotFound);
    assert_eq!(engine.doc_list_sorted("db0"), OpsOutcome::DbNotFound);
    assert_eq!(engine.flush("db0", "doc0"), Ok(OpsOutcome::DbNotFound));
    assert_eq!(engine.field_list("db0", "doc0"), Ok(OpsOutcome::DbNotFound));
    assert_eq!(engine.field_insert("db0", "doc0", b"k", b"v"), Ok(OpsOutcome::DbNotFound));
    assert_eq!(engine.field_get("db0", "doc0", b"k"), Ok(OpsOutcome::DbNotFound));
    assert_eq!(engine.field_remove("db0", "doc0", b"k"), Ok(OpsOutcome::DbNotFound));
    assert_eq!(engine.field_modify("db0", "doc0", b"k", b"v"), Ok(OpsOutcome::DbNotFound));
}

#[test]
fn operations_without_the_document() {
    let mut engine = TuringEngine::new("/tmp/turingdb-nowhere");
    assert_eq!(engine.db_create("db0"), Ok(OpsOutcome::DbCreated));
    assert_eq!(engine.doc_drop("db0", "doc0"), Ok(OpsOutcome::DocumentNotFound));
    assert_eq!(engine.flush("db0", "doc0"), Ok(OpsOutcome::DocumentNotFound));
    assert_eq!(engine.field_list("db0", "doc0"), Ok(OpsOutcome::DocumentNotFound));
    assert_eq!(engine.field_insert("db0", "doc0", b"k", b"v"), Ok(OpsOutcome::DocumentNotFound));
    assert_eq!(engine.field_insert("db0", "doc0", b"k", b""), Ok(OpsOutcome::DocumentNotFound));
    assert_eq!(engine.field_get("db0", "doc0", b"k"), Ok(OpsOutcome::DocumentNotFound));
    assert_eq!(engine.field_remove("db0", "doc0", b"k"), Ok(OpsOutcome::DocumentNotFound));
    assert_eq!(engine.field_modify("db0", "doc0", b"k", b"v"), Ok(OpsOutcome::DocumentNotFound));
    assert_eq!(engine.doc_create("db0", ""), Err(TuringDbError::EmptyDocumentName));
    assert_eq!(engine.doc_create("db0", "a/b"), Err(TuringDbError::InvalidPathUnicodeName));
    assert_eq!(engine.doc_drop("db0", ""), Err(TuringDbError::EmptyDocumentName));
}

#[test]
fn documents_are_listed_in_the_order_they_came() {
    let root = scratch("doclist");
    let mut engine = TuringEngine::new(&root);
    assert_eq!(engine.db_create("db0"), Ok(OpsOutcome::DbCreated));
    assert_eq!(engine.doc_list("db0"), OpsOutcome::DbEmpty);
    assert_eq!(engine.doc_list_sorted("db0"), OpsOutcome::DbEmpty);
    for name in ["m", "z", "a"] {
        assert_eq!(engine.doc_create("db0", name), Ok(OpsOutcome::DocumentCreated));
    }
    assert_eq!(
        engine.doc_list("db0"),
        OpsOutcome::DocumentList(vec!["m".into(), "z".into(), "a".into()])
    );
    assert_eq!(
        engine.doc_list_sorted("db0"),
        OpsOutcome::DocumentList(vec!["a".into(), "m".into(), "z".into()])
    );
    assert_eq!(engine.doc_drop("db0", "z"), Ok(OpsOutcome::DocumentDropped));
    assert_eq!(engine.doc_list("db0"), OpsOutcome::DocumentList(vec!["m".into(), "a".into()]));
    assert_eq!(engine.doc_drop("db0", "z"), Ok(OpsOutcome::DocumentNotFound));
    drop(engine);
    cleanup(&root);
}

#[test]
fn double_document_create_changes_nothing() {
    let root = scratch("doctwice");
    let mut engine = engine_with_doc(&root);
    assert_eq!(engine.field_insert("db0", "doc0", b"k", b"v"), Ok(OpsOutcome::FieldInserted));
    assert_eq!(engine.doc_create("db0", "doc0"), Ok(OpsOutcome::DocumentAlreadyExists));
    assert_eq!(engine.doc_list("db0"), OpsOutcome::DocumentList(vec!["doc0".into()]));
    assert_eq!(engine.field_get("db0", "doc0", b"k"), Ok(OpsOutcome::FieldContents(b"v".to_vec())));
    drop(engine);
    cleanup(&root);
}

#[test]
fn a_store_that_exists_on_disk_is_not_created_anew() {
    let root = scratch("stale");
    let mut engine = engine_with_doc(&root);
    assert_eq!(engine.field_insert("db0", "doc0", b"k", b"v"), Ok(OpsOutcome::FieldInserted));
    drop(engine);
    let mut engine = TuringEngine::new(&root);
    assert_eq!(engine.db_create("db0"), Ok(OpsOutcome::DbCreated));
    assert_eq!(engine.doc_create("db0", "doc0"), Ok(OpsOutcome::DocumentAlreadyExists));
    assert_eq!(engine.doc_list("db0"), OpsOutcome::DbEmpty);
    drop(engine);
    cleanup(&root);
}

#[test]
fn a_document_is_opened_fresh_only_once() {
    let root = scratch("openfresh");
    let mut document = Document::open(&root, "db0", "doc0", true).ok().unwrap();
    assert_eq!(document.list_keys(), Ok(OpsOutcome::DocumentEmpty));
    assert_eq!(document.insert(b"k", b"v"), Ok(OpsOutcome::FieldInserted));
    assert_eq!(document.flush(), Ok(OpsOutcome::Committed));
    drop(document);
    assert_eq!(
        Document::open(&root, "db0", "doc0", true).err(),
        Some(TuringDbError::DocumentAlreadyExists)
    );
    let mut document = Document::open(&root, "db0", "doc0", false).ok().unwrap();
    assert_eq!(document.list_keys(), Ok(OpsOutcome::FieldList(vec![b"k".to_vec()])));
    assert_eq!(document.get(b"k"), Ok(OpsOutcome::FieldContents(b"v".to_vec())));
    assert_eq!(document.modify(b"k", b"w"), Ok(OpsOutcome::FieldModified));
    assert_eq!(document.remove(b"k"), Ok(OpsOutcome::FieldDropped));
    assert_eq!(document.list_keys(), Ok(OpsOutcome::DocumentEmpty));
    drop(document);
    cleanup(&root);
}

#[test]
fn a_database_on_its_own() {
    let root = scratch("tdb");
    let mut db = Tdb::new();
    assert!(db.is_empty());
    assert_eq!(db.find("doc0"), None);
    assert_eq!(db.document_create(&root, "db0", "doc0"), Ok(OpsOutcome::DocumentCreated));
    assert_eq!(db.document_create(&root, "db0", "doc1"), Ok(OpsOutcome::DocumentCreated));
    assert_eq!(db.len(), 2);
    assert_eq!(db.find("doc1"), Some(1));
    assert_eq!(db.field_insert("doc1", b"k", b"v"), Ok(OpsOutcome::FieldInserted));
    assert_eq!(db.field_get("doc1", b"k"), Ok(OpsOutcome::FieldContents(b"v".to_vec())));
    assert_eq!(db.field_get("doc0", b"k"), Ok(OpsOutcome::FieldNotFound));
    assert_eq!(db.field_list("doc2"), Ok(OpsOutcome::DocumentNotFound));
    assert_eq!(db.flush("doc0"), Ok(OpsOutcome::Committed));
    assert_eq!(db.flush("doc2"), Ok(OpsOutcome::DocumentNotFound));
    assert_eq!(db.document_drop("doc0"), Ok(OpsOutcome::DocumentDropped));
    assert_eq!(db.find("doc1"), Some(0));
    assert_eq!(db.document_list(), OpsOutcome::DocumentList(vec!["doc1".into()]));
    drop(db);
    cleanup(&root);
}

#[test]
fn fresh_document_has_no_fields() {
    let root = scratch("fresh");
    let mut engine = engine_with_doc(&root);
    assert_eq!(engine.field_list("db0", "doc0"), Ok(OpsOutcome::DocumentEmpty));
    assert_eq!(engine.field_get("db0", "doc0", b"k"), Ok(OpsOutcome::FieldNotFound));
    assert_eq!(engine.flush("db0", "doc0"), Ok(OpsOutcome::Committed));
    drop(engine);
    cleanup(&root);
}

#[test]
fn insert_then_get_gives_the_payload() {
    let root = scratch("roundtrip");
    let mut engine = engine_with_doc(&root);
    assert_eq!(
        engine.field_insert("db0", "doc0", b"field0", b"hello"),
        Ok(OpsOutcome::FieldInserted)
    );
    assert_eq!(
        engine.field_get("db0", "doc0", b"field0"),
        Ok(OpsOutcome::FieldContents(b"hello".to_vec()))
    );
    let big = vec![0xabu8; 1 << 20];
    assert_eq!(engine.field_insert("db0", "doc0", b"big", &big), Ok(OpsOutcome::FieldInserted));
    assert_eq!(engine.field_get("db0", "doc0", b"big"), Ok(OpsOutcome::FieldContents(big)));
    assert_eq!(engine.field_insert("db0", "doc0", &[0, 255], &[0]), Ok(OpsOutcome::FieldInserted));
    assert_eq!(engine.field_get("db0", "doc0", &[0, 255]), Ok(OpsOutcome::FieldContents(vec![0])));
    drop(engine);
    cleanup(&root);
}

#[test]
fn double_insert_changes_nothing() {
    let root = scratch("fieldtwice");
    let mut engine = engine_with_doc(&root);
    assert_eq!(engine.field_insert("db0", "doc0", b"k", b"one"), Ok(OpsOutcome::FieldInserted));
    assert_eq!(engine.field_insert("db0", "doc0", b"k", b"two"), Ok(OpsOutcome::FieldAlreadyExists));
    assert_eq!(engine.field_get("db0", "doc0", b"k"), Ok(OpsOutcome::FieldContents(b"one".to_vec())));
    assert_eq!(engine.field_list("db0", "doc0"), Ok(OpsOutcome::FieldList(vec![b"k".to_vec()])));
    drop(engine);
    cleanup(&root);
}

#[test]
fn empty_key_and_empty_payload_are_refused() {
    let root = scratch("empty");
    let mut engine = engine_with_doc(&root);
    assert_eq!(engine.field_insert("db0", "doc0", b"", b"v"), Err(TuringDbError::EmptyFieldName));
    assert_eq!(engine.field_insert("db0", "doc0", b"", b""), Err(TuringDbError::EmptyFieldName));
    assert_eq!(engine.field_insert("db0", "doc0", b"k", b""), Err(TuringDbError::EmptyData));
    assert_eq!(engine.field_get("db0", "doc0", b""), Err(TuringDbError::EmptyFieldName));
    assert_eq!(engine.field_remove("db0", "doc0", b""), Err(TuringDbError::EmptyFieldName));
    assert_eq!(engine.field_modify("db0", "doc0", b"", b"v"), Err(TuringDbError::EmptyFieldName));
    assert_eq!(engine.field_modify("db0", "doc0", b"k", b""), Err(TuringDbError::EmptyData));
    assert_eq!(engine.field_list("db0", "doc0"), Ok(OpsOutcome::DocumentEmpty));
    drop(engine);
    cleanup(&root);
}

#[test]
fn keys_are_listed_in_ascending_order() {
    let root = scratch("keys");
    let mut engine = engine_with_doc(&root);
    for key in [&b"m"[..], b"b", b"z", b"a", b"mm"] {
        assert_eq!(engine.field_insert("db0", "doc0", key, b"v"), Ok(OpsOutcome::FieldInserted));
    }
    assert_eq!(
        engine.field_list("db0", "doc0"),
        Ok(OpsOutcome::FieldList(vec![
            b"a".to_vec(),
            b"b".to_vec(),
            b"m".to_vec(),
            b"mm".to_vec(),
            b"z".to_vec()
        ]))
    );
    drop(engine);
    cleanup(&root);
}

#[test]
fn key_list_mirrors_the_store() {
    let root = scratch("mirror");
    let mut engine = engine_with_doc(&root);
    for i in 0..40u32 {
        let key = format!("key{:02}", (i * 13) % 40);
        assert_eq!(
            engine.field_insert("db0", "doc0", key.as_bytes(), b"v"),
            Ok(OpsOutcome::FieldInserted)
        );
    }
    for i in (0..40u32).step_by(3) {
        let key = format!("key{:02}", i);
        assert_eq!(engine.field_remove("db0", "doc0", key.as_bytes()), Ok(OpsOutcome::FieldDropped));
    }
    let listed = match engine.field_list("db0", "doc0") {
        Ok(OpsOutcome::FieldList(keys)) => keys,
        other => panic!("unexpected {:?}", other),
    };
    drop(engine);
    let store = sled::open(format!("{}/db0/doc0", root)).unwrap();
    let stored: Vec<Vec<u8>> = store.iter().keys().map(|k| k.unwrap().to_vec()).collect();
    assert_eq!(listed, stored);
    assert_eq!(listed.len(), 40 - 14);
    drop(store);
    cleanup(&root);
}

#[test]
fn remove_takes_the_field_out() {
    let root = scratch("remove");
    let mut engine = engine_with_doc(&root);
    assert_eq!(engine.field_remove("db0", "doc0", b"k"), Ok(OpsOutcome::FieldNotFound));
    assert_eq!(engine.field_insert("db0", "doc0", b"k", b"v"), Ok(OpsOutcome::FieldInserted));
    assert_eq!(engine.field_insert("db0", "doc0", b"l", b"w"), Ok(OpsOutcome::FieldInserted));
    assert_eq!(engine.field_remove("db0", "doc0", b"k"), Ok(OpsOutcome::FieldDropped));
    assert_eq!(engine.field_get("db0", "doc0", b"k"), Ok(OpsOutcome::FieldNotFound));
    assert_eq!(engine.field_remove("db0", "doc0", b"k"), Ok(OpsOutcome::FieldNotFound));
    assert_eq!(engine.field_list("db0", "doc0"), Ok(OpsOutcome::FieldList(vec![b"l".to_vec()])));
    assert_eq!(engine.field_insert("db0", "doc0", b"k", b"again"), Ok(OpsOutcome::FieldInserted));
    assert_eq!(
        engine.field_get("db0", "doc0", b"k"),
        Ok(OpsOutcome::FieldContents(b"again".to_vec()))
    );
    drop(engine);
    cleanup(&root);
}

#[test]
fn modify_replaces_the_payload_and_keeps_creation() {
    let root = scratch("modify");
    let mut engine = engine_with_doc(&root);
    assert_eq!(engine.field_modify("db0", "doc0", b"k", b"v"), Ok(OpsOutcome::FieldNotFound));
    assert_eq!(engine.field_insert("db0", "doc0", b"k", b"hello"), Ok(OpsOutcome::FieldInserted));
    drop(engine);

    let store = sled::open(format!("{}/db0/doc0", root)).unwrap();
    let first = FieldData::decode(&store.get(b"k").unwrap().unwrap()).unwrap();
    drop(store);
    assert_eq!(first.data(), &b"hello".to_vec());
    assert_eq!(first.created(), first.modified());

    let mut engine = TuringEngine::new(&root);
    let listing = vec![DbDir { entry: dir("db0"), children: vec![dir("doc0")] }];
    assert_eq!(engine.repo_init(&listing), vec![]);
    let start = std::time::Instant::now();
    while start.elapsed() < std::time::Duration::from_millis(5) {}
    assert_eq!(engine.field_modify("db0", "doc0", b"k", b"world"), Ok(OpsOutcome::FieldModified));
    assert_eq!(
        engine.field_get("db0", "doc0", b"k"),
        Ok(OpsOutcome::FieldContents(b"world".to_vec()))
    );
    assert_eq!(engine.field_list("db0", "doc0"), Ok(OpsOutcome::FieldList(vec![b"k".to_vec()])));
    drop(engine);

    let store = sled::open(format!("{}/db0/doc0", root)).unwrap();
    let second = FieldData::decode(&store.get(b"k").unwrap().unwrap()).unwrap();
    drop(store);
    assert_eq!(second.data(), &b"world".to_vec());
    assert_eq!(second.created(), first.created());
    assert!(second.modified().is_at_or_after(&first.modified()));
    assert_ne!(second.modified(), first.modified());
    cleanup(&root);
}

#[test]
fn bytes_that_are_no_record_are_corrupt() {
    let root = scratch("corrupt");
    let engine = engine_with_doc(&root);
    drop(engine);
    let store = sled::open(format!("{}/db0/doc0", root)).unwrap();
    store.insert(b"k", &b"not a record"[..]).unwrap();
    store.flush().unwrap();
    drop(store);
    let mut engine = TuringEngine::new(&root);
    let listing = vec![DbDir { entry: dir("db0"), children: vec![dir("doc0")] }];
    assert_eq!(engine.repo_init(&listing), vec![]);
    assert_eq!(engine.field_list("db0", "doc0"), Ok(OpsOutcome::FieldList(vec![b"k".to_vec()])));
    assert_eq!(engine.field_get("db0", "doc0", b"k"), Err(TuringDbError::CorruptRecord));
    assert_eq!(engine.field_modify("db0", "doc0", b"k", b"v"), Err(TuringDbError::CorruptRecord));
    assert_eq!(engine.field_insert("db0", "doc0", b"k", b"v"), Ok(OpsOutcome::FieldAlreadyExists));
    assert_eq!(engine.field_remove("db0", "doc0", b"k"), Ok(OpsOutcome::FieldDropped));
    assert_eq!(engine.field_list("db0", "doc0"), Ok(OpsOutcome::DocumentEmpty));
    drop(engine);
    cleanup(&root);
}

fn settled(fresh: bool, found: Result<Vec<Vec<u8>>, TuringDbError>) -> Result<Vec<Vec<u8>>, TuringDbError> {
    settle_open(fresh, found.map(|keys| KeyList::from_keys(&keys))).map(|list| list.to_vec())
}

#[test]
fn a_store_found_as_it_is_gives_its_keys() {
    assert_eq!(settled(false, Ok(vec![])), Ok(vec![]));
    assert_eq!(
        settled(false, Ok(vec![b"b".to_vec(), b"a".to_vec()])),
        Ok(vec![b"a".to_vec(), b"b".to_vec()])
    );
    assert_eq!(
        settled(false, Err(TuringDbError::Io(IoErrors::PermissionDenied))),
        Err(TuringDbError::Io(IoErrors::PermissionDenied))
    );
    assert_eq!(
        settled(false, Err(TuringDbError::DocumentCorrupted)),
        Err(TuringDbError::DocumentCorrupted)
    );
}

#[test]
fn a_new_store_must_hold_nothing() {
    assert_eq!(settled(true, Ok(vec![])), Ok(vec![]));
    assert_eq!(
        settled(true, Ok(vec![b"k".to_vec()])),
        Err(TuringDbError::DocumentAlreadyExists)
    );
    assert_eq!(
        settled(true, Err(TuringDbError::Io(IoErrors::PermissionDenied))),
        Err(TuringDbError::DocumentUnfinished)
    );
}

#[test]
fn a_refused_store_is_reported_by_what_was_asked() {
    let there = TuringDbError::Io(IoErrors::AlreadyExists);
    let denied = TuringDbError::Io(IoErrors::PermissionDenied);
    assert_eq!(refused_open(true, there.clone()), TuringDbError::DocumentAlreadyExists);
    assert_eq!(refused_open(false, there.clone()), there);
    assert_eq!(refused_open(true, denied.clone()), denied);
    assert_eq!(refused_open(false, denied.clone()), denied);
    assert_eq!(
        refused_open(true, TuringDbError::DocumentCorrupted),
        TuringDbError::DocumentCorrupted
    );
}

#[test]
fn an_acknowledged_write_is_there_when_the_store_is_opened_again() {
    let root = scratch("settled");
    let mut document = Document::open(&root, "db0", "doc0", true).ok().unwrap();
    assert_eq!(document.insert(b"a", b"1"), Ok(OpsOutcome::FieldInserted));
    assert_eq!(document.insert(b"b", b"2"), Ok(OpsOutcome::FieldInserted));
    assert_eq!(document.modify(b"a", b"3"), Ok(OpsOutcome::FieldModified));
    assert_eq!(document.remove(b"b"), Ok(OpsOutcome::FieldDropped));
    drop(document);
    let mut document = Document::open(&root, "db0", "doc0", false).ok().unwrap();
    assert_eq!(document.list_keys(), Ok(OpsOutcome::FieldList(vec![b"a".to_vec()])));
    assert_eq!(document.get(b"a"), Ok(OpsOutcome::FieldContents(b"3".to_vec())));
    drop(document);
    cleanup(&root);
}

#[test]
fn read_outcome_by_what_the_store_hands_back() {
    assert_eq!(read_outcome(None), Ok(OpsOutcome::FieldNotFound));
    let record = FieldData::new_at(b"payload", Timestamp { secs: 7, nanos: 8 });
    assert_eq!(read_outcome(Some(record.encode())), Ok(OpsOutcome::FieldContents(b"payload".to_vec())));
    assert_eq!(read_outcome(Some(b"junk".to_vec())), Err(TuringDbError::CorruptRecord));
    assert_eq!(read_outcome(Some(vec![])), Err(TuringDbError::CorruptRecord));
}

#[test]
fn renew_record_keeps_creation() {
    let created = Timestamp { secs: 100, nanos: 5 };
    let stored = FieldData::new_at(b"old", created).encode();
    let later = Timestamp { secs: 101, nanos: 0 };
    let renewed = FieldData::decode(&renew_record(&stored, b"new", later).unwrap()).unwrap();
    assert_eq!(renewed.data(), &b"new".to_vec());
    assert_eq!(renewed.created(), created);
    assert_eq!(renewed.modified(), later);
    let earlier = Timestamp { secs: 99, nanos: 0 };
    let kept = FieldData::decode(&renew_record(&stored, b"new", earlier).unwrap()).unwrap();
    assert_eq!(kept.created(), created);
    assert_eq!(kept.modified(), created);
    assert_eq!(renew_record(b"junk", b"new", later), Err(TuringDbError::CorruptRecord));
}

#[test]
fn documents_do_not_share_fields() {
    let root = scratch("isolation");
    let mut engine = TuringEngine::new(&root);
    for db in ["db0", "db1"] {
        assert_eq!(engine.db_create(db), Ok(OpsOutcome::DbCreated));
        assert_eq!(engine.doc_create(db, "doc0"), Ok(OpsOutcome::DocumentCreated));
    }
    assert_eq!(engine.field_insert("db0", "doc0", b"k", b"zero"), Ok(OpsOutcome::FieldInserted));
    assert_eq!(engine.field_insert("db1", "doc0", b"k", b"one"), Ok(OpsOutcome::FieldInserted));
    assert_eq!(engine.field_get("db0", "doc0", b"k"), Ok(OpsOutcome::FieldContents(b"zero".to_vec())));
    assert_eq!(engine.field_get("db1", "doc0", b"k"), Ok(OpsOutcome::FieldContents(b"one".to_vec())));
    assert_eq!(engine.field_remove("db0", "doc0", b"k"), Ok(OpsOutcome::FieldDropped));
    assert_eq!(engine.field_get("db1", "doc0", b"k"), Ok(OpsOutcome::FieldContents(b"one".to_vec())));
    drop(engine);
    cleanup(&root);
}

#[test]
fn recovery_rebuilds_the_registry() {
    let root = scratch("recovery");
    let mut engine = TuringEngine::new(&root);
    assert_eq!(engine.db_create("db0"), Ok(OpsOutcome::DbCreated));
    assert_eq!(engine.db_create("db1"), Ok(OpsOutcome::DbCreated));
    assert_eq!(engine.doc_create("db0", "doc0"), Ok(OpsOutcome::DocumentCreated));
    assert_eq!(engine.doc_create("db0", "doc1"), Ok(OpsOutcome::DocumentCreated));
    assert_eq!(engine.field_insert("db0", "doc0", b"field0", b"hello"), Ok(OpsOutcome::FieldInserted));
    assert_eq!(engine.field_insert("db0", "doc0", b"afield", b"x"), Ok(OpsOutcome::FieldInserted));
    assert_eq!(engine.field_insert("db0", "doc1", b"other", b"y"), Ok(OpsOutcome::FieldInserted));
    drop(engine);

    let listing = vec![
        DbDir { entry: dir("db0"), children: vec![dir("doc0"), file("notes.txt"), dir("doc1")] },
        DbDir { entry: file("errors.log"), children: vec![] },
        DbDir { entry: dir(".hidden"), children: vec![dir("doc0")] },
        DbDir { entry: dir("db1"), children: vec![dir(".cache")] },
    ];
    let mut engine = TuringEngine::new(&root);
    assert_eq!(engine.repo_init(&listing), vec![]);
    assert_eq!(engine.db_list_sorted(), OpsOutcome::DbList(vec!["db0".into(), "db1".into()]));
    assert_eq!(
        engine.doc_list("db0"),
        OpsOutcome::DocumentList(vec!["doc0".into(), "doc1".into()])
    );
    assert_eq!(engine.doc_list("db1"), OpsOutcome::DbEmpty);
    assert_eq!(
        engine.field_list("db0", "doc0"),
        Ok(OpsOutcome::FieldList(vec![b"afield".to_vec(), b"field0".to_vec()]))
    );
    assert_eq!(
        engine.field_get("db0", "doc0", b"field0"),
        Ok(OpsOutcome::FieldContents(b"hello".to_vec()))
    );
    assert_eq!(engine.field_get("db0", "doc1", b"other"), Ok(OpsOutcome::FieldContents(b"y".to_vec())));
    drop(engine);
    cleanup(&root);
}

#[test]
fn recovery_of_an_empty_listing_gives_an_empty_registry() {
    let mut engine = TuringEngine::new("/tmp/turingdb-nowhere");
    assert_eq!(engine.db_create("old"), Ok(OpsOutcome::DbCreated));
    assert_eq!(engine.repo_init(&Vec::new()), vec![]);
    assert!(engine.is_empty());
    assert_eq!(engine.get_repo_dir(), "/tmp/turingdb-nowhere");
}

#[test]
fn recovery_passes_over_a_document_that_cannot_be_loaded() {
    let root = scratch("badentry");
    let engine = engine_with_doc(&root);
    drop(engine);
    // A store that is open elsewhere cannot be opened again.
    let held = sled::open(format!("{}/db0/doc0", root)).unwrap();
    let mut other = TuringEngine::new(&root);
    assert_eq!(other.db_create("db0"), Ok(OpsOutcome::DbCreated));
    assert_eq!(other.doc_create("db0", "doc1"), Ok(OpsOutcome::DocumentCreated));
    drop(other);

    let listing = vec![DbDir { entry: dir("db0"), children: vec![dir("doc0"), dir("doc1")] }];
    let mut engine = TuringEngine::new(&root);
    let report = engine.repo_init(&listing);
    assert_eq!(report.len(), 1);
    assert_eq!(report[0].db, "db0");
    assert_eq!(report[0].document, "doc0");
    assert_eq!(report[0].error, TuringDbError::Io(IoErrors::Other));
    assert_eq!(engine.doc_list("db0"), OpsOutcome::DocumentList(vec!["doc1".into()]));
    drop(engine);
    drop(held);
    cleanup(&root);
}

#[test]
fn recovery_merges_repeated_entries() {
    let root = scratch("repeated");
    let engine = engine_with_doc(&root);
    drop(engine);
    let listing = vec![
        DbDir { entry: dir("db0"), children: vec![dir("doc0"), dir("doc0")] },
        DbDir { entry: dir("db0"), children: vec![dir("doc0")] },
    ];
    let mut engine = TuringEngine::new(&root);
    assert_eq!(engine.repo_init(&listing), vec![]);
    assert_eq!(engine.db_list(), OpsOutcome::DbList(vec!["db0".into()]));
    assert_eq!(engine.doc_list("db0"), OpsOutcome::DocumentList(vec!["doc0".into()]));
    drop(engine);
    cleanup(&root);
}

#[test]
fn clear_lets_everything_go() {
    let root = scratch("clear");
    let mut engine = engine_with_doc(&root);
    engine.clear();
    assert!(engine.is_empty());
    assert_eq!(engine.get_repo_dir(), &root);
    assert_eq!(engine.doc_list("db0"), OpsOutcome::DbNotFound);
    // The store was closed: it can be opened again.
    let listing = vec![DbDir { entry: dir("db0"), children: vec![dir("doc0")] }];
    assert_eq!(engine.repo_init(&listing), vec![]);
    assert_eq!(engine.doc_list("db0"), OpsOutcome::DocumentList(vec!["doc0".into()]));
    drop(engine);
    cleanup(&root);
}
