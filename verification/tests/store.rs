use permission_manager::cli::{run_command, submit, Command, SubmitError};
use permission_manager::db::{PermissionDB, PermissionEntry, PermissionState, StoreError};
use permission_manager::editor::change_decision;

fn strings(items: &[&str]) -> Vec<String> {
    items.iter().map(|s| s.to_string()).collect()
}

fn mem(name: &str) -> String {
    format!("file:{}?mode=memory&cache=shared", name)
}

#[test]
fn round_trip_upsert_then_read() {
    let mut db = PermissionDB::init(":memory:").unwrap();
    let entry = PermissionEntry {
        app_name: "Photos".to_string(),
        requested_permissions: strings(&["location", "storage"]),
        permission_state: PermissionState::Always,
    };
    db.upsert(&entry).unwrap();
    let all = db.get_all().unwrap();
    assert_eq!(all.len(), 1);
    assert_eq!(all[0].app_name, "Photos");
    assert_eq!(all[0].requested_permissions, strings(&["location", "storage"]));
    assert_eq!(all[0].permission_state, PermissionState::Always);
}

#[test]
fn uniqueness_last_write_wins() {
    let mut db = PermissionDB::init(":memory:").unwrap();
    let mut entry = PermissionEntry {
        app_name: "App".to_string(),
        requested_permissions: strings(&["a"]),
        permission_state: PermissionState::Block,
    };
    db.upsert(&entry).unwrap();
    entry.requested_permissions = strings(&["b", "c"]);
    entry.permission_state = PermissionState::AllowOnce;
    db.upsert(&entry).unwrap();
    entry.requested_permissions = strings(&["d"]);
    entry.permission_state = PermissionState::Always;
    db.upsert(&entry).unwrap();
    let all = db.get_all().unwrap();
    assert_eq!(all.len(), 1);
    assert_eq!(all[0].app_name, "App");
    assert_eq!(all[0].requested_permissions, strings(&["d"]));
    assert_eq!(all[0].permission_state, PermissionState::Always);
}

#[test]
fn replace_not_merge() {
    let mut db = PermissionDB::init(":memory:").unwrap();
    db.upsert(&PermissionEntry {
        app_name: "A".to_string(),
        requested_permissions: strings(&["x"]),
        permission_state: PermissionState::Block,
    })
    .unwrap();
    db.upsert(&PermissionEntry {
        app_name: "A".to_string(),
        requested_permissions: strings(&[]),
        permission_state: PermissionState::Always,
    })
    .unwrap();
    let all = db.get_all().unwrap();
    assert_eq!(all.len(), 1);
    assert_eq!(all[0].app_name, "A");
    assert!(all[0].requested_permissions.is_empty());
    assert_eq!(all[0].permission_state, PermissionState::Always);
}

#[test]
fn default_deny_on_creation() {
    let mut db = PermissionDB::init(":memory:").unwrap();
    submit(&mut db, "Fresh".to_string(), strings(&["net", "mic", "cam"])).unwrap();
    let all = db.get_all().unwrap();
    assert_eq!(all.len(), 1);
    assert_eq!(all[0].permission_state, PermissionState::Block);
}

#[test]
fn submit_scenario_then_edit_clears_permissions() {
    let mut db = PermissionDB::init(":memory:").unwrap();
    submit(&mut db, "Calculator".to_string(), strings(&["camera", "microphone"])).unwrap();
    let all = db.get_all().unwrap();
    assert_eq!(all.len(), 1);
    assert_eq!(all[0].app_name, "Calculator");
    assert_eq!(all[0].requested_permissions, strings(&["camera", "microphone"]));
    assert_eq!(all[0].permission_state, PermissionState::Block);

    change_decision(&mut db, "Calculator".to_string(), "Always").unwrap();
    let all = db.get_all().unwrap();
    assert_eq!(all.len(), 1);
    assert_eq!(all[0].app_name, "Calculator");
    assert!(all[0].requested_permissions.is_empty());
    assert_eq!(all[0].permission_state, PermissionState::Always);
}

#[test]
fn unknown_label_is_a_no_op_not_an_error() {
    let mut db = PermissionDB::init(":memory:").unwrap();
    submit(&mut db, "App".to_string(), strings(&["x"])).unwrap();
    change_decision(&mut db, "App".to_string(), "Sometimes").unwrap();
    let all = db.get_all().unwrap();
    assert_eq!(all.len(), 1);
    assert_eq!(all[0].requested_permissions, strings(&["x"]));
    assert_eq!(all[0].permission_state, PermissionState::Block);
}

#[test]
fn empty_submission_rejected_before_the_store() {
    let mut db = PermissionDB::init(":memory:").unwrap();
    let r = submit(&mut db, "Empty".to_string(), strings(&[]));
    assert_eq!(r, Err(SubmitError::NoPermissions));
    assert_eq!(db.get_all().unwrap().len(), 0);
}

#[test]
fn store_itself_accepts_an_empty_permission_list() {
    let mut db = PermissionDB::init(":memory:").unwrap();
    db.upsert(&PermissionEntry {
        app_name: "Bare".to_string(),
        requested_permissions: strings(&[]),
        permission_state: PermissionState::Block,
    })
    .unwrap();
    let all = db.get_all().unwrap();
    assert_eq!(all.len(), 1);
    assert_eq!(all[0].app_name, "Bare");
    assert!(all[0].requested_permissions.is_empty());
}

#[test]
fn idempotent_open_keeps_data_across_handles() {
    let loc = mem("p6db");
    let db1 = PermissionDB::init(&loc).unwrap();
    let mut db2 = PermissionDB::init(&loc).unwrap();
    submit(&mut db2, "Keep".to_string(), strings(&["x"])).unwrap();
    let via1 = db1.get_all().unwrap();
    let via2 = db2.get_all().unwrap();
    assert_eq!(via1.len(), 1);
    assert_eq!(via1[0].app_name, "Keep");
    assert_eq!(via2.len(), 1);
    assert_eq!(via2[0].app_name, "Keep");
}

#[test]
fn fail_closed_on_unrecognized_persisted_tag() {
    let loc = mem("p4db");
    let db = PermissionDB::init(&loc).unwrap();
    let raw = rusqlite::Connection::open(&loc).unwrap();
    raw.execute(
        "INSERT OR REPLACE INTO permissions (app_name, requested_permissions, permission_state)
         VALUES (?1, ?2, ?3)",
        ("Weird", "[\"x\"]", "Maybe"),
    )
    .unwrap();
    let all = db.get_all().unwrap();
    assert_eq!(all.len(), 1);
    assert_eq!(all[0].app_name, "Weird");
    assert_eq!(all[0].requested_permissions, strings(&["x"]));
    assert_eq!(all[0].permission_state, PermissionState::Block);
}

#[test]
fn malformed_permissions_column_reads_as_empty() {
    let loc = mem("badjson");
    let db = PermissionDB::init(&loc).unwrap();
    let raw = rusqlite::Connection::open(&loc).unwrap();
    raw.execute(
        "INSERT OR REPLACE INTO permissions (app_name, requested_permissions, permission_state)
         VALUES (?1, ?2, ?3)",
        ("Bad", "not json at all", "Always"),
    )
    .unwrap();
    let all = db.get_all().unwrap();
    assert_eq!(all.len(), 1);
    assert_eq!(all[0].app_name, "Bad");
    assert!(all[0].requested_permissions.is_empty());
    assert_eq!(all[0].permission_state, PermissionState::Always);
}

#[test]
fn permissions_column_is_stored_as_json() {
    let loc = mem("jsoncol");
    let mut db = PermissionDB::init(&loc).unwrap();
    submit(&mut db, "Calculator".to_string(), strings(&["camera", "microphone"])).unwrap();
    let raw = rusqlite::Connection::open(&loc).unwrap();
    let text: String = raw
        .query_row(
            "SELECT requested_permissions FROM permissions WHERE app_name = ?1",
            ("Calculator",),
            |row| row.get(0),
        )
        .unwrap();
    assert_eq!(text, "[\"camera\",\"microphone\"]");
    let tag: String = raw
        .query_row(
            "SELECT permission_state FROM permissions WHERE app_name = ?1",
            ("Calculator",),
            |row| row.get(0),
        )
        .unwrap();
    assert_eq!(tag, "Block");
}

#[test]
fn init_fails_as_storage_unavailable_on_an_unopenable_path() {
    // A directory is not a database file that can be opened.
    let r = PermissionDB::init(".");
    assert!(matches!(r, Err(StoreError::StorageUnavailable)));
}

#[test]
fn scan_failure_is_storage_corrupt() {
    let loc = mem("dropped");
    let db = PermissionDB::init(&loc).unwrap();
    let raw = rusqlite::Connection::open(&loc).unwrap();
    raw.execute("DROP TABLE permissions", ()).unwrap();
    assert!(matches!(db.get_all(), Err(StoreError::StorageCorrupt)));
}

#[test]
fn write_failure_is_storage_unavailable_and_reported() {
    let loc = mem("droppedw");
    let mut db = PermissionDB::init(&loc).unwrap();
    let raw = rusqlite::Connection::open(&loc).unwrap();
    raw.execute("DROP TABLE permissions", ()).unwrap();
    let r = db.upsert(&PermissionEntry {
        app_name: "X".to_string(),
        requested_permissions: strings(&["a"]),
        permission_state: PermissionState::Block,
    });
    assert_eq!(r, Err(StoreError::StorageUnavailable));
    let r = submit(&mut db, "X".to_string(), strings(&["a"]));
    assert_eq!(r, Err(SubmitError::Storage(StoreError::StorageUnavailable)));
    // An edit surfaces the failure too, it is never swallowed.
    let r = change_decision(&mut db, "X".to_string(), "Always");
    assert_eq!(r, Err(StoreError::StorageUnavailable));
}

#[test]
fn request_command_is_a_submission() {
    let mut db = PermissionDB::init(":memory:").unwrap();
    let cmd = Command::Request {
        app: "Editor".to_string(),
        permissions: strings(&["files"]),
    };
    run_command(&mut db, cmd).unwrap();
    let all = db.get_all().unwrap();
    assert_eq!(all.len(), 1);
    assert_eq!(all[0].app_name, "Editor");
    assert_eq!(all[0].requested_permissions, strings(&["files"]));
    assert_eq!(all[0].permission_state, PermissionState::Block);

    let empty = Command::Request { app: "E2".to_string(), permissions: strings(&[]) };
    assert_eq!(run_command(&mut db, empty), Err(SubmitError::NoPermissions));
}

#[test]
fn entries_for_different_identities_coexist() {
    let mut db = PermissionDB::init(":memory:").unwrap();
    submit(&mut db, "One".to_string(), strings(&["a"])).unwrap();
    submit(&mut db, "Two".to_string(), strings(&["b"])).unwrap();
    let mut all = db.get_all().unwrap();
    assert_eq!(all.len(), 2);
    all.sort_by(|x, y| x.app_name.cmp(&y.app_name));
    assert_eq!(all[0].app_name, "One");
    assert_eq!(all[0].requested_permissions, strings(&["a"]));
    assert_eq!(all[1].app_name, "Two");
    assert_eq!(all[1].requested_permissions, strings(&["b"]));
}
