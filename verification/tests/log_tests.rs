//! Tests of the table log: validation, atomic commit, state replay.

use table_log::actions::{Action, DataFile, MetaData, Protocol, Tombstone};
use table_log::log::TableLog;
use table_log::schema::{Field, Ptype, Schema};
use table_log::state::TableState;
use table_log::TableError;

fn field(name: &str, ptype: Ptype, nullable: bool) -> Field {
    Field { name: name.to_string(), ptype, nullable }
}

fn users_schema() -> Schema {
    Schema::new(vec![
        field("id", Ptype::Int, false),
        field("name", Ptype::Str, false),
    ])
    .expect("schema")
}

fn users_metadata() -> MetaData {
    MetaData {
        id: "users-0001".to_string(),
        name: Some("Users".to_string()),
        description: Some("This table is made to test the create function".to_string()),
        schema: users_schema(),
        partition_columns: vec!["account_id".to_string()],
        configuration: vec![],
    }
}

fn create_actions() -> Vec<Action> {
    Vec::from([
        Action::Protocol(Protocol { min_reader_version: 1, min_writer_version: 1 }),
        Action::MetaData(users_metadata()),
        Action::CommitInfo(vec![(
            "operation".to_string(),
            "CREATE TABLE".to_string(),
        )]),
    ])
}

fn add_file(path: &str, size: i64, ts: i64) -> Action {
    Action::Add(DataFile {
        path: path.to_string(),
        size,
        partition_values: vec![("account_id".to_string(), "3".to_string())],
        modification_time: ts,
        data_change: true,
    })
}

fn remove_file(path: &str, ts: i64) -> Action {
    Action::Remove(Tombstone { path: path.to_string(), deletion_timestamp: ts })
}

#[test]
fn it_creates_delta_table() {
    let mut log = TableLog::initialize(false).expect("init");
    let prepared = log.prepare_commit(create_actions()).expect("prepare");
    let v = log.try_commit(prepared, 0).expect("commit");
    assert_eq!(v, 0);
    let state = log.load_state(None).expect("load");
    assert_eq!(
        state.protocol,
        Some(Protocol { min_reader_version: 1, min_writer_version: 1 })
    );
    let md = state.metadata.expect("metadata");
    assert_eq!(md.name, Some("Users".to_string()));
    assert_eq!(md.schema, users_schema());
    assert_eq!(state.files.len(), 0);
    assert_eq!(state.tombstones.len(), 0);
}

#[test]
fn already_initialized_is_refused() {
    let r = TableLog::initialize(true);
    assert!(matches!(r, Err(TableError::AlreadyInitialized)));
}

#[test]
fn create_commit_without_metadata_is_invalid() {
    let log = TableLog::initialize(false).expect("init");
    let r = log.prepare_commit(vec![Action::Protocol(Protocol {
        min_reader_version: 1,
        min_writer_version: 1,
    })]);
    assert!(matches!(r, Err(TableError::InvalidActionSet)));
}

#[test]
fn load_state_equals_manual_fold() {
    // Committing A1 at version 0 and A2 at version 1 and then loading
    // version 1 equals folding A1 and then A2 into the empty state.
    let mut log = TableLog::initialize(false).expect("init");
    let a1 = create_actions();
    let a2 = vec![add_file("p1", 100, 42)];
    let p1 = log.prepare_commit(a1).expect("prepare");
    log.try_commit(p1, 0).expect("commit 0");
    let p2 = log.prepare_commit(a2).expect("prepare");
    log.try_commit(p2, 1).expect("commit 1");

    let loaded = log.load_state(Some(1)).expect("load");

    let mut manual = TableState::empty();
    manual.merge_version(&create_actions());
    manual.merge_version(&vec![add_file("p1", 100, 42)]);
    assert_eq!(loaded, manual);
}

#[test]
fn conflicting_commits_never_both_succeed() {
    let mut log = TableLog::initialize(false).expect("init");
    let p1 = log.prepare_commit(create_actions()).expect("prepare");
    let p2 = log.prepare_commit(create_actions()).expect("prepare");
    let first = log.try_commit(p1, 0);
    let second = log.try_commit(p2, 0);
    assert_eq!(first, Ok(0));
    assert_eq!(second, Err(TableError::Conflict));
    assert_eq!(log.version_count(), 1);
}

#[test]
fn re_adding_a_removed_path_makes_it_live_again() {
    let mut log = TableLog::initialize(false).expect("init");
    let p = log.prepare_commit(create_actions()).expect("prepare");
    log.try_commit(p, 0).expect("commit 0");
    let p = log.prepare_commit(vec![add_file("p1", 10, 1)]).expect("prepare");
    log.try_commit(p, 1).expect("commit 1");
    let p = log.prepare_commit(vec![remove_file("p1", 2)]).expect("prepare");
    log.try_commit(p, 2).expect("commit 2");
    let p = log.prepare_commit(vec![add_file("p1", 99, 3)]).expect("prepare");
    log.try_commit(p, 3).expect("commit 3");

    let state = log.load_state(None).expect("load");
    assert_eq!(state.files.len(), 1);
    assert_eq!(state.files[0].path, "p1".to_string());
    assert_eq!(state.files[0].size, 99);
    assert_eq!(state.files[0].modification_time, 3);
}

#[test]
fn missing_version_is_corrupt() {
    let mut log = TableLog::initialize(false).expect("init");
    let p = log.prepare_commit(create_actions()).expect("prepare");
    log.try_commit(p, 0).expect("commit 0");
    let r = log.load_state(Some(5));
    assert!(matches!(r, Err(TableError::CorruptLog)));
}

#[test]
fn end_to_end_scenario() {
    // Version 0: protocol, metadata with schema [id:int required,
    // name:string required], commit info "CREATE TABLE".
    let mut log = TableLog::initialize(false).expect("init");
    let p = log.prepare_commit(create_actions()).expect("prepare");
    assert_eq!(log.try_commit(p, 0), Ok(0));
    let s0 = log.load_state(Some(0)).expect("load 0");
    assert_eq!(s0.files.len(), 0);
    let md = s0.metadata.expect("metadata");
    assert_eq!(md.schema, users_schema());
    assert!(!md.schema.fields[0].nullable);
    assert_eq!(md.schema.fields[0].ptype, Ptype::Int);
    assert_eq!(md.schema.fields[1].ptype, Ptype::Str);

    // Version 1: add "p1" under partition account_id=3.
    let p = log.prepare_commit(vec![add_file("p1", 100, 42)]).expect("prepare");
    assert_eq!(log.try_commit(p, 1), Ok(1));
    let s1 = log.load_state(Some(1)).expect("load 1");
    assert_eq!(s1.files.len(), 1);
    assert_eq!(s1.files[0].path, "p1".to_string());
    assert_eq!(
        s1.files[0].partition_values,
        vec![("account_id".to_string(), "3".to_string())]
    );

    // Version 2: remove "p1".
    let p = log.prepare_commit(vec![remove_file("p1", 77)]).expect("prepare");
    assert_eq!(log.try_commit(p, 2), Ok(2));
    let s2 = log.load_state(Some(2)).expect("load 2");
    assert_eq!(s2.files.len(), 0);
    assert_eq!(s2.tombstones.len(), 1);
    assert_eq!(s2.tombstones[0].path, "p1".to_string());
    assert_eq!(s2.tombstones[0].deletion_timestamp, 77);
}

#[test]
fn tightening_nullability_is_rejected() {
    let mut log = TableLog::initialize(false).expect("init");
    let mut md = users_metadata();
    md.schema = Schema::new(vec![
        field("id", Ptype::Int, false),
        field("name", Ptype::Str, true),
    ])
    .expect("schema");
    let p = log
        .prepare_commit(vec![
            Action::Protocol(Protocol { min_reader_version: 1, min_writer_version: 1 }),
            Action::MetaData(md),
        ])
        .expect("prepare");
    log.try_commit(p, 0).expect("commit 0");

    // "name" was nullable; redeclaring it as required must be refused.
    let r = log.prepare_commit(vec![Action::MetaData(users_metadata())]);
    assert!(matches!(r, Err(TableError::InvalidActionSet)));
}

#[test]
fn loosening_nullability_is_allowed() {
    let mut log = TableLog::initialize(false).expect("init");
    let p = log.prepare_commit(create_actions()).expect("prepare");
    log.try_commit(p, 0).expect("commit 0");

    // "name" was required; redeclaring it as nullable is a loosening.
    let mut md = users_metadata();
    md.schema = Schema::new(vec![
        field("id", Ptype::Int, false),
        field("name", Ptype::Str, true),
    ])
    .expect("schema");
    let p = log.prepare_commit(vec![Action::MetaData(md)]).expect("loosening accepted");
    assert_eq!(log.try_commit(p, 1), Ok(1));
}

#[test]
fn remove_of_absent_path_is_idempotent_tombstone() {
    let mut log = TableLog::initialize(false).expect("init");
    let p = log.prepare_commit(create_actions()).expect("prepare");
    log.try_commit(p, 0).expect("commit 0");
    let p = log.prepare_commit(vec![remove_file("ghostly", 5)]).expect("prepare");
    log.try_commit(p, 1).expect("commit 1");
    let p = log.prepare_commit(vec![remove_file("ghostly", 6)]).expect("prepare");
    log.try_commit(p, 2).expect("commit 2");
    let state = log.load_state(None).expect("load");
    assert_eq!(state.files.len(), 0);
    assert_eq!(state.tombstones.len(), 1);
    assert_eq!(state.tombstones[0].deletion_timestamp, 6);
}

#[test]
fn stamped_data_file_carries_its_arguments() {
    let f = DataFile::stamped_now(
        "p9".to_string(),
        123,
        vec![("account_id".to_string(), "7".to_string())],
    );
    assert_eq!(f.path, "p9".to_string());
    assert_eq!(f.size, 123);
    assert_eq!(
        f.partition_values,
        vec![("account_id".to_string(), "7".to_string())]
    );
    assert!(f.data_change);
    // The demo data predates this test by construction; any live clock
    // must read later than that moment.
    assert!(f.modification_time > 1665031876786);
}
