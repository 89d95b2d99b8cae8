//! What a login on a native platform opens: the local SQLite database when
//! the storage target is one, the websocket transport and the sync task,
//! each under its resource name; and the sync task's handle.
use vstd::prelude::*;

use crate::errors::{empty_message, error_of, ErrorCode, OpenImError};
use crate::session::{LoginCredentials, SessionResourceHandle, StorageTarget};
use crate::text::{concat2, owned};
use crate::transport::TransportConfig;

verus! {

/// The resources of a native login, in the order they are opened: the
/// database file (with its resource name) when there is one, then the
/// transport and the sync task.
#[derive(Debug, Clone, PartialEq, Eq)]
pub struct NativeLoginPlan {
    pub sqlite_path: Option<String>,
    pub storage_name: Option<String>,
    pub transport_name: String,
    pub sync_name: String,
}

/// The error of a browser storage target on a native platform.
pub open spec fn indexeddb_on_native() -> Seq<char> {
    "indexeddb storage target requires a wasm resource adapter"@
}

/// Plans a native login: a SQLite target is opened as `sqlite:<path>`, an
/// unconfigured one opens nothing, a browser one is refused; the transport
/// is `native-websocket:<address>` and the sync task `sync:<user>`.
pub fn plan_native_login(credentials: &LoginCredentials, transport: &TransportConfig, storage: &StorageTarget) -> (r:
    Result<NativeLoginPlan, OpenImError>)
    ensures
        r is Err <==> storage is IndexedDb,
        r matches Err(e) ==> e@ == error_of(10002, indexeddb_on_native()),
        r matches Ok(p) ==> {
            &&& storage matches StorageTarget::Sqlite { path } ==> (p.sqlite_path matches Some(x) && x@
                == path@) && (p.storage_name matches Some(n) && n@ == "sqlite:"@ + path@)
            &&& storage is Unconfigured ==> p.sqlite_path is None && p.storage_name is None
            &&& p.transport_name@ == "native-websocket:"@ + transport.ws_addr@
            &&& p.sync_name@ == "sync:"@ + credentials.user_id@
        },
{
    let (sqlite_path, storage_name) = match storage {
        StorageTarget::Sqlite { path } => (Some(path.clone()), Some(concat2("sqlite:", path.as_str()))),
        StorageTarget::IndexedDb { .. } => {
            return Err(
                OpenImError::args("indexeddb storage target requires a wasm resource adapter"),
            );
        },
        StorageTarget::Unconfigured => (None, None),
    };
    Ok(
        NativeLoginPlan {
            sqlite_path,
            storage_name,
            transport_name: concat2("native-websocket:", transport.ws_addr.as_str()),
            sync_name: concat2("sync:", credentials.user_id.as_str()),
        },
    )
}

/// The handle of a login's sync task; closing it checks that it belongs to
/// a user.
#[derive(Debug, Clone, PartialEq, Eq)]
pub struct SyncTaskHandle {
    pub user_id: String,
}

impl SyncTaskHandle {
    pub fn new(user_id: &str) -> (r: SyncTaskHandle)
        ensures
            r.user_id@ == user_id@,
    {
        SyncTaskHandle { user_id: owned(user_id) }
    }
}

impl SessionResourceHandle for SyncTaskHandle {
    fn close(&mut self) -> (r: Result<(), OpenImError>)
        ensures
            r is Ok <==> old(self).user_id@.len() > 0,
            r matches Err(e) ==> e@ == error_of(10006, empty_message("user_id"@)),
            *final(self) == *old(self),
    {
        if self.user_id.as_str().is_empty() {
            Err(OpenImError::with_message(ErrorCode::sdk_internal(), concat2("user_id", " is empty")))
        } else {
            Ok(())
        }
    }
}

} // verus!
