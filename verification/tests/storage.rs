use openim::storage::{
    conversation_key, message_key, openim_db_file_name, openim_indexeddb_name, version_sync_key,
    AppSdkVersion, IndexedDbStorage, VersionRecord,
};

#[test]
fn indexeddb_name_matches_openim_user_scope() {
    assert_eq!(
        openim_indexeddb_name("1695766238").unwrap(),
        "OpenIM_v3_1695766238"
    );
    assert!(openim_indexeddb_name("").is_err());
}

#[test]
fn db_file_name_matches_go_layout() {
    assert_eq!(
        openim_db_file_name("1695766238").unwrap(),
        "OpenIM_v3_1695766238.db"
    );
    assert!(openim_db_file_name("").is_err());
}

#[test]
fn version_sync_key_is_stable_json_tuple() {
    assert_eq!(
        version_sync_key("local_group_entities_version", "1076204769").unwrap(),
        r#"["local_group_entities_version","1076204769"]"#
    );
}

#[test]
fn json_keys_escape_quotes() {
    assert_eq!(
        message_key("a\"b", "c").unwrap(),
        r#"["a\"b","c"]"#
    );
    assert!(version_sync_key("", "x").is_err());
}

#[test]
fn storage_name_is_scoped_by_login_user() {
    let storage = IndexedDbStorage::new("1695766238").unwrap();

    assert_eq!(storage.db_name(), "OpenIM_v3_1695766238");
}

#[test]
fn empty_database_name_is_rejected() {
    assert!(IndexedDbStorage::with_db_name("").is_err());
    assert!(IndexedDbStorage::new("").is_err());
}

#[test]
fn message_and_conversation_keys_are_stable_json_tuples() {
    assert_eq!(
        message_key("si_u1_u2", "client-1").unwrap(),
        r#"["si_u1_u2","client-1"]"#
    );
    assert_eq!(
        conversation_key("u1", "si_u1_u2").unwrap(),
        r#"["u1","si_u1_u2"]"#
    );
    assert!(message_key("", "client-1").is_err());
    assert!(conversation_key("u1", "").is_err());
}

#[test]
fn records_start_empty() {
    let record = VersionRecord::new("local_group_entities_version", "1076204769");
    assert_eq!(record.table_name, "local_group_entities_version");
    assert_eq!(record.entity_id, "1076204769");
    assert_eq!(record.version, 0);
    assert!(record.uid_list.is_empty());
    let version = AppSdkVersion::new("3.8.3", true);
    assert_eq!(version.version, "3.8.3");
    assert!(version.installed);
    let named = IndexedDbStorage::with_db_name("custom").unwrap();
    assert_eq!(named.db_name(), "custom");
}
