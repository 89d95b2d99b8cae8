use openim::native::{plan_native_login, SyncTaskHandle};
use openim::session::{LoginCredentials, SessionResourceHandle, StorageTarget};
use openim::transport::TransportConfig;

#[test]
fn native_login_plans_sqlite_transport_and_sync() {
    let credentials = LoginCredentials::new("u1", "token");
    let transport = TransportConfig::new("ws://127.0.0.1:1", "u1", "token", 3, "op1");
    let plan = plan_native_login(
        &credentials,
        &transport,
        &StorageTarget::Sqlite {
            path: "db/OpenIM_v3_u1.db".to_string(),
        },
    )
    .unwrap();
    assert_eq!(plan.sqlite_path, Some("db/OpenIM_v3_u1.db".to_string()));
    assert_eq!(plan.storage_name, Some("sqlite:db/OpenIM_v3_u1.db".to_string()));
    assert_eq!(plan.transport_name, "native-websocket:ws://127.0.0.1:1");
    assert_eq!(plan.sync_name, "sync:u1");

    let plain = plan_native_login(&credentials, &transport, &StorageTarget::Unconfigured).unwrap();
    assert_eq!(plain.sqlite_path, None);
    assert_eq!(plain.storage_name, None);

    let err = plan_native_login(
        &credentials,
        &transport,
        &StorageTarget::IndexedDb {
            name: "OpenIM_v3_u1".to_string(),
        },
    )
    .unwrap_err();
    assert_eq!(
        err.message(),
        "indexeddb storage target requires a wasm resource adapter"
    );
}

#[test]
fn sync_task_handle_needs_a_user() {
    assert!(SyncTaskHandle::new("u1").close().is_ok());
    let err = SyncTaskHandle::new("").close().unwrap_err();
    assert_eq!(err.message(), "user_id is empty");
    assert_eq!(err.code().as_i32(), 10006);
}
