use permission_manager::cli::submit;
use permission_manager::db::{PermissionDB, PermissionEntry, PermissionState};
use permission_manager::editor::{change_decision, join_permissions, list_rows};

fn strings(items: &[&str]) -> Vec<String> {
    items.iter().map(|s| s.to_string()).collect()
}

#[test]
fn join_empty_list_is_empty() {
    assert_eq!(join_permissions(&strings(&[])), "");
}

#[test]
fn join_single_permission_has_no_separator() {
    assert_eq!(join_permissions(&strings(&["camera"])), "camera");
}

#[test]
fn join_several_permissions_in_order() {
    assert_eq!(
        join_permissions(&strings(&["camera", "microphone", "location"])),
        "camera, microphone, location"
    );
}

#[test]
fn list_rows_shows_identity_joined_permissions_and_label() {
    let mut db = PermissionDB::init(":memory:").unwrap();
    submit(&mut db, "Calculator".to_string(), strings(&["camera", "microphone"])).unwrap();
    let rows = list_rows(&db).unwrap();
    assert_eq!(rows.len(), 1);
    assert_eq!(rows[0], (
        "Calculator".to_string(),
        "camera, microphone".to_string(),
        "Block".to_string(),
    ));
}

#[test]
fn list_rows_shows_the_edited_label() {
    let mut db = PermissionDB::init(":memory:").unwrap();
    submit(&mut db, "Calculator".to_string(), strings(&["camera"])).unwrap();
    change_decision(&mut db, "Calculator".to_string(), "Allow Once").unwrap();
    let rows = list_rows(&db).unwrap();
    assert_eq!(rows.len(), 1);
    assert_eq!(rows[0].0, "Calculator");
    assert_eq!(rows[0].1, "");
    assert_eq!(rows[0].2, "Allow Once");
}

#[test]
fn list_rows_one_row_per_identity() {
    let mut db = PermissionDB::init(":memory:").unwrap();
    db.upsert(&PermissionEntry {
        app_name: "B".to_string(),
        requested_permissions: strings(&["y", "z"]),
        permission_state: PermissionState::Always,
    })
    .unwrap();
    db.upsert(&PermissionEntry {
        app_name: "A".to_string(),
        requested_permissions: strings(&["x"]),
        permission_state: PermissionState::AllowOnce,
    })
    .unwrap();
    let mut rows = list_rows(&db).unwrap();
    rows.sort();
    assert_eq!(rows.len(), 2);
    assert_eq!(rows[0], ("A".to_string(), "x".to_string(), "Allow Once".to_string()));
    assert_eq!(rows[1], ("B".to_string(), "y, z".to_string(), "Always".to_string()));
}
