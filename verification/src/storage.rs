//! Local storage naming and records: the per-user database names, the
//! version-sync and key encodings, and the storage traits.
use vstd::prelude::*;

use crate::errors::{empty_message, ensure_not_empty, error_of, ErrorCode, ErrorView, OpenImError};
use crate::text::{concat2, concat3, owned};

verus! {

pub const BIG_VERSION: &'static str = "v3";

pub const APP_SDK_VERSION_TABLE: &'static str = "local_app_sdk_version";

pub const VERSION_SYNC_TABLE: &'static str = "local_sync_version";

pub const APP_SDK_VERSION_KEY: &'static str = "app_sdk_version";

pub const MESSAGE_STORE: &'static str = "local_messages";

pub const MESSAGE_HISTORY_STORE: &'static str = "local_message_histories";

pub const CONVERSATION_STORE: &'static str = "local_conversations";

pub const OWNER_CONVERSATION_STORE: &'static str = "local_owner_conversations";

#[derive(Debug, Clone, PartialEq, Eq)]
pub struct AppSdkVersion {
    pub version: String,
    pub installed: bool,
}

impl AppSdkVersion {
    pub fn new(version: &str, installed: bool) -> (r: AppSdkVersion)
        ensures
            r.version@ == version@,
            r.installed == installed,
    {
        AppSdkVersion { version: owned(version), installed }
    }
}

/// The sync version of one table for one entity.
#[derive(Debug, Clone, PartialEq, Eq)]
pub struct VersionRecord {
    pub table_name: String,
    pub entity_id: String,
    pub version_id: String,
    pub version: u64,
    pub create_time: i64,
    pub uid_list: Vec<String>,
}

impl VersionRecord {
    /// An empty record of a table and entity.
    pub fn new(table_name: &str, entity_id: &str) -> (r: VersionRecord)
        ensures
            r.table_name@ == table_name@,
            r.entity_id@ == entity_id@,
            r.version_id@.len() == 0,
            r.version == 0,
            r.create_time == 0,
            r.uid_list@.len() == 0,
    {
        VersionRecord {
            table_name: owned(table_name),
            entity_id: owned(entity_id),
            version_id: String::new(),
            version: 0,
            create_time: 0,
            uid_list: Vec::new(),
        }
    }
}

pub trait StorageMigrator {
    fn migrate(&self) -> Result<(), OpenImError>;
}

pub trait AppVersionStore {
    fn get_app_sdk_version(&self) -> Result<Option<AppSdkVersion>, OpenImError>;

    fn set_app_sdk_version(&self, version: &AppSdkVersion) -> Result<(), OpenImError>;
}

pub trait VersionStore {
    fn get_version_sync(&self, table_name: &str, entity_id: &str) -> Result<
        Option<VersionRecord>,
        OpenImError,
    >;

    fn set_version_sync(&self, record: &VersionRecord) -> Result<(), OpenImError>;

    fn delete_version_sync(&self, table_name: &str, entity_id: &str) -> Result<(), OpenImError>;
}

/// The database name of a user: `OpenIM_v3_<user>`.
pub open spec fn database_name(user: Seq<char>) -> Seq<char> {
    "OpenIM_"@ + "v3"@ + "_"@ + user
}

/// The error for an empty login user.
pub open spec fn login_user_error() -> ErrorView {
    error_of(10002, empty_message("login_user_id"@))
}

/// Each user has a database of their own: two users with the same database
/// name are the same user.
pub proof fn law_database_names_are_per_user(a: Seq<char>, b: Seq<char>)
    ensures
        database_name(a) == database_name(b) ==> a == b,
{
    let p = "OpenIM_"@ + "v3"@ + "_"@;
    if database_name(a) == database_name(b) {
        assert(a =~= database_name(a).subrange(p.len() as int, database_name(a).len() as int));
        assert(b =~= database_name(b).subrange(p.len() as int, database_name(b).len() as int));
    }
}

/// The IndexedDB database name of a user.
pub fn openim_indexeddb_name(login_user_id: &str) -> (r: Result<String, OpenImError>)
    ensures
        r is Ok <==> login_user_id@.len() > 0,
        r matches Err(e) ==> e@ == login_user_error(),
        r matches Ok(n) ==> n@ == database_name(login_user_id@),
{
    ensure_not_empty(login_user_id, "login_user_id")?;
    let head = concat3("OpenIM_", BIG_VERSION, "_");
    Ok(concat2(head.as_str(), login_user_id))
}

/// The SQLite file name of a user: `OpenIM_v3_<user>.db`; the directory it
/// lies in is the caller's.
pub fn openim_db_file_name(login_user_id: &str) -> (r: Result<String, OpenImError>)
    ensures
        r is Ok <==> login_user_id@.len() > 0,
        r matches Err(e) ==> e@ == login_user_error(),
        r matches Ok(n) ==> n@ == database_name(login_user_id@) + ".db"@,
{
    let name = openim_indexeddb_name(login_user_id)?;
    Ok(concat2(name.as_str(), ".db"))
}

/// What `serde_json::to_string` makes of a pair of strings: the JSON array
/// text, or the text of its error.
pub uninterp spec fn json_pair(first: Seq<char>, second: Seq<char>) -> Result<Seq<char>, Seq<char>>;

/// Calls `serde_json::to_string` on the tuple `(first, second)`; an error
/// is rendered as text. Trusted: the result is `json_pair` of the two
/// strings, nothing more is claimed.
#[verifier::external_body]
fn encode_json_pair(first: &str, second: &str) -> (r: Result<String, String>)
    ensures
        r matches Ok(t) ==> (json_pair(first@, second@) matches Ok(j) && j == t@),
        r matches Err(t) ==> (json_pair(first@, second@) matches Err(j) && j == t@),
{
    serde_json::to_string(&(first, second)).map_err(|err| err.to_string())
}

/// Why a pair key cannot be made: an empty part, or an encoding error.
pub open spec fn pair_key_error(
    first: Seq<char>,
    first_field: Seq<char>,
    second: Seq<char>,
    second_field: Seq<char>,
    what: Seq<char>,
) -> Option<ErrorView> {
    if first.len() == 0 {
        Some(error_of(10002, empty_message(first_field)))
    } else if second.len() == 0 {
        Some(error_of(10002, empty_message(second_field)))
    } else {
        match json_pair(first, second) {
            Err(text) => Some(error_of(10006, "encode "@ + what + " key failed: "@ + text)),
            Ok(_) => None,
        }
    }
}

/// The JSON pair key of two non-empty parts.
fn pair_key(first: &str, first_field: &str, second: &str, second_field: &str, what: &str) -> (r:
    Result<String, OpenImError>)
    ensures
        r is Ok <==> pair_key_error(first@, first_field@, second@, second_field@, what@) is None,
        r matches Err(e) ==> Some(e@) == pair_key_error(first@, first_field@, second@, second_field@, what@),
        r matches Ok(k) ==> json_pair(first@, second@) == Ok::<Seq<char>, Seq<char>>(k@),
{
    ensure_not_empty(first, first_field)?;
    ensure_not_empty(second, second_field)?;
    match encode_json_pair(first, second) {
        Ok(text) => Ok(text),
        Err(text) => {
            let head = concat3("encode ", what, " key failed: ");
            Err(OpenImError::with_message(ErrorCode::sdk_internal(), concat2(head.as_str(), text.as_str())))
        },
    }
}

/// The key of a table's sync version for an entity: the JSON pair.
pub fn version_sync_key(table_name: &str, entity_id: &str) -> (r: Result<String, OpenImError>)
    ensures
        r is Ok <==> pair_key_error(table_name@, "table_name"@, entity_id@, "entity_id"@, "version sync"@) is None,
        r matches Err(e) ==> Some(e@) == pair_key_error(table_name@, "table_name"@, entity_id@, "entity_id"@, "version sync"@),
        r matches Ok(k) ==> json_pair(table_name@, entity_id@) == Ok::<Seq<char>, Seq<char>>(k@),
{
    pair_key(table_name, "table_name", entity_id, "entity_id", "version sync")
}

/// The key of a stored message: the JSON pair of conversation and client
/// message id.
pub fn message_key(conversation_id: &str, client_msg_id: &str) -> (r: Result<String, OpenImError>)
    ensures
        r is Ok <==> pair_key_error(conversation_id@, "conversation_id"@, client_msg_id@, "client_msg_id"@, "message"@) is None,
        r matches Err(e) ==> Some(e@) == pair_key_error(conversation_id@, "conversation_id"@, client_msg_id@, "client_msg_id"@, "message"@),
        r matches Ok(k) ==> json_pair(conversation_id@, client_msg_id@) == Ok::<Seq<char>, Seq<char>>(k@),
{
    pair_key(conversation_id, "conversation_id", client_msg_id, "client_msg_id", "message")
}

/// The key of a stored conversation: the JSON pair of owner and
/// conversation id.
pub fn conversation_key(owner_user_id: &str, conversation_id: &str) -> (r: Result<String, OpenImError>)
    ensures
        r is Ok <==> pair_key_error(owner_user_id@, "owner_user_id"@, conversation_id@, "conversation_id"@, "conversation"@) is None,
        r matches Err(e) ==> Some(e@) == pair_key_error(owner_user_id@, "owner_user_id"@, conversation_id@, "conversation_id"@, "conversation"@),
        r matches Ok(k) ==> json_pair(owner_user_id@, conversation_id@) == Ok::<Seq<char>, Seq<char>>(k@),
{
    pair_key(owner_user_id, "owner_user_id", conversation_id, "conversation_id", "conversation")
}

/// The IndexedDB store of one user's data, by database name.
pub struct IndexedDbStorage {
    db_name: String,
}

impl IndexedDbStorage {
    pub closed spec fn spec_db_name(&self) -> Seq<char> {
        self.db_name@
    }

    /// The storage of a user's database.
    pub fn new(login_user_id: &str) -> (r: Result<IndexedDbStorage, OpenImError>)
        ensures
            r is Ok <==> login_user_id@.len() > 0,
            r matches Err(e) ==> e@ == login_user_error(),
            r matches Ok(s) ==> s.spec_db_name() == database_name(login_user_id@),
    {
        Ok(IndexedDbStorage { db_name: openim_indexeddb_name(login_user_id)? })
    }

    /// The storage of a named database.
    pub fn with_db_name(db_name: &str) -> (r: Result<IndexedDbStorage, OpenImError>)
        ensures
            r is Ok <==> db_name@.len() > 0,
            r matches Err(e) ==> e@ == error_of(10002, empty_message("db_name"@)),
            r matches Ok(s) ==> s.spec_db_name() == db_name@,
    {
        ensure_not_empty(db_name, "db_name")?;
        Ok(IndexedDbStorage { db_name: owned(db_name) })
    }

    pub fn db_name(&self) -> (r: &str)
        ensures
            r@ == self.spec_db_name(),
    {
        self.db_name.as_str()
    }
}

} // verus!
