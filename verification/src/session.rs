//! The session of a logged-in user: configuration, credentials, the
//! lifecycle (init, login, logout, uninit), its tasks, listeners and
//! runtime resources, and the routing of messages into the domain services.
use vstd::prelude::*;

use crate::domain::conversation::{ConversationInfo, ConversationService};
use crate::domain::group::GroupService;
use crate::domain::message::{
    acked, message_error, prepared_outgoing, send_recorded, ChatMessage, MessageSender, MessageService, SendMessageAck,
};
use crate::domain::relation::RelationService;
use crate::domain::user::UserService;
use crate::errors::{empty_message, ensure_not_empty, error_of, ErrorView, OpenImError};
use crate::keyed::{Duplicate, Key, Keyed, KeyedStore, ListOrder, lists_exactly};
use crate::domain::{list_every, listing_all, lists_every};
use crate::storage::{database_name, login_user_error, openim_db_file_name, openim_indexeddb_name};
use crate::text::{lemma_lt_strict_total, owned, seq_lt, str_before, str_eq};
use crate::transport::TransportConfig;
use crate::types::{MessageStatus, Platform};

verus! {

/// The identifier of a registered listener.
pub type ListenerId = u64;

/// The task that keeps the gateway connection.
pub const TRANSPORT_TASK: &'static str = "transport";

/// The task that keeps local data in sync.
pub const SYNC_TASK: &'static str = "sync";

/// Where a session connects and keeps its data.
#[derive(Debug, Clone, PartialEq, Eq)]
pub struct SessionConfig {
    pub platform: Platform,
    pub api_addr: String,
    pub ws_addr: String,
    pub data_dir: Option<String>,
    /// The working directory a relative data directory lies under; empty
    /// leaves a relative data directory relative.
    pub current_dir: String,
}

/// What is wrong with a configuration, if anything.
pub open spec fn config_error(c: SessionConfig) -> Option<ErrorView> {
    if c.api_addr@.len() == 0 {
        Some(error_of(10002, empty_message("api_addr"@)))
    } else if c.ws_addr@.len() == 0 {
        Some(error_of(10002, empty_message("ws_addr"@)))
    } else if c.data_dir matches Some(d) && d@.len() == 0 {
        Some(error_of(10002, empty_message("data_dir"@)))
    } else {
        None
    }
}

/// Whether a platform keeps its data in the browser.
pub open spec fn is_web(p: Platform) -> bool {
    p == Platform::Web || p == Platform::MiniWeb
}

/// What `std::path::Path::join` makes of a directory and a file name,
/// rendered with `to_string_lossy`.
pub uninterp spec fn path_join(dir: Seq<char>, file: Seq<char>) -> Seq<char>;

/// Calls `std::path::Path::join` on the directory and the file name and
/// renders the path with `to_string_lossy`. Trusted: the result is
/// `path_join` of the two.
#[verifier::external_body]
fn join_path(dir: &str, file: &str) -> (r: String)
    ensures
        r@ == path_join(dir@, file@),
{
    std::path::Path::new(dir).join(file).to_string_lossy().into_owned()
}

/// A user's database file: `OpenIM_v3_<user>.db` in the data directory,
/// joined onto the working directory (`Path::join` keeps an absolute data
/// directory as it is).
pub open spec fn db_file_path(current_dir: Seq<char>, db_dir: Seq<char>, user: Seq<char>) -> Seq<char> {
    path_join(current_dir, path_join(db_dir, database_name(user) + ".db"@))
}

/// The path of a user's database file under a working directory:
/// `<current_dir>/<db_dir>/OpenIM_v3_<user>.db`, or `<db_dir>/OpenIM_v3_<user>.db`
/// as it is when the data directory is absolute.
pub fn openim_db_file(current_dir: &str, db_dir: &str, login_user_id: &str) -> (r: Result<String, OpenImError>)
    ensures
        r is Ok <==> login_user_id@.len() > 0,
        r matches Err(e) ==> e@ == login_user_error(),
        r matches Ok(p) ==> p@ == db_file_path(current_dir@, db_dir@, login_user_id@),
{
    let file = openim_db_file_name(login_user_id)?;
    let path = join_path(db_dir, file.as_str());
    Ok(join_path(current_dir, path.as_str()))
}

/// Where a user's data is kept.
#[derive(Debug, Clone, PartialEq, Eq)]
pub enum StorageTarget {
    Unconfigured,
    Sqlite { path: String },
    IndexedDb { name: String },
}

/// Field-by-field equality of storage targets.
pub open spec fn storage_same(a: StorageTarget, b: StorageTarget) -> bool {
    match (a, b) {
        (StorageTarget::Unconfigured, StorageTarget::Unconfigured) => true,
        (StorageTarget::Sqlite { path: x }, StorageTarget::Sqlite { path: y }) => x@ == y@,
        (StorageTarget::IndexedDb { name: x }, StorageTarget::IndexedDb { name: y }) => x@ == y@,
        _ => false,
    }
}

fn storage_equal(a: &StorageTarget, b: &StorageTarget) -> (r: bool)
    ensures
        r == storage_same(*a, *b),
{
    match (a, b) {
        (StorageTarget::Unconfigured, StorageTarget::Unconfigured) => true,
        (StorageTarget::Sqlite { path: x }, StorageTarget::Sqlite { path: y }) => x.eq(y),
        (StorageTarget::IndexedDb { name: x }, StorageTarget::IndexedDb { name: y }) => x.eq(y),
        _ => false,
    }
}

fn copy_storage(s: &StorageTarget) -> (r: StorageTarget)
    ensures
        r == *s,
{
    match s {
        StorageTarget::Unconfigured => StorageTarget::Unconfigured,
        StorageTarget::Sqlite { path } => StorageTarget::Sqlite { path: path.clone() },
        StorageTarget::IndexedDb { name } => StorageTarget::IndexedDb { name: name.clone() },
    }
}

/// The storage target of a user: the browser database on the web, else
/// the database file in the data directory, when there is one.
pub open spec fn storage_target_of(c: SessionConfig, user: Seq<char>, r: StorageTarget) -> bool {
    if is_web(c.platform) {
        r matches StorageTarget::IndexedDb { name } && name@ == database_name(user)
    } else {
        match c.data_dir {
            None => r is Unconfigured,
            Some(dir) => r matches StorageTarget::Sqlite { path } && path@ == db_file_path(
                c.current_dir@,
                dir@,
                user,
            ),
        }
    }
}

/// A user's login.
#[derive(Debug, Clone, PartialEq, Eq)]
pub struct LoginCredentials {
    pub user_id: String,
    pub token: String,
}

/// What is wrong with credentials, if anything.
pub open spec fn credentials_error(c: LoginCredentials) -> Option<ErrorView> {
    if c.user_id@.len() == 0 {
        Some(error_of(10002, empty_message("user_id"@)))
    } else if c.token@.len() == 0 {
        Some(error_of(10002, empty_message("token"@)))
    } else {
        None
    }
}

impl LoginCredentials {
    pub fn new(user_id: &str, token: &str) -> (r: LoginCredentials)
        ensures
            r.user_id@ == user_id@,
            r.token@ == token@,
    {
        LoginCredentials { user_id: owned(user_id), token: owned(token) }
    }

    fn validate(&self) -> (r: Result<(), OpenImError>)
        ensures
            r is Ok <==> credentials_error(*self) is None,
            r matches Err(e) ==> Some(e@) == credentials_error(*self),
    {
        ensure_not_empty(self.user_id.as_str(), "user_id")?;
        ensure_not_empty(self.token.as_str(), "token")
    }
}

impl SessionConfig {
    pub fn new(platform: Platform, api_addr: &str, ws_addr: &str) -> (r: SessionConfig)
        ensures
            r.platform == platform,
            r.api_addr@ == api_addr@,
            r.ws_addr@ == ws_addr@,
            r.data_dir is None,
            r.current_dir@.len() == 0,
    {
        SessionConfig {
            platform,
            api_addr: owned(api_addr),
            ws_addr: owned(ws_addr),
            data_dir: None,
            current_dir: String::new(),
        }
    }

    /// The working directory that a relative data directory lies under.
    pub fn with_current_dir(self, current_dir: &str) -> (r: SessionConfig)
        ensures
            r.current_dir@ == current_dir@,
            r == (SessionConfig { current_dir: r.current_dir, ..self }),
    {
        SessionConfig { current_dir: owned(current_dir), ..self }
    }

    pub fn with_data_dir(self, data_dir: &str) -> (r: SessionConfig)
        ensures
            r.data_dir matches Some(d) && d@ == data_dir@,
            r == (SessionConfig { data_dir: r.data_dir, ..self }),
    {
        SessionConfig { data_dir: Some(owned(data_dir)), ..self }
    }

    fn validate(&self) -> (r: Result<(), OpenImError>)
        ensures
            r is Ok <==> config_error(*self) is None,
            r matches Err(e) ==> Some(e@) == config_error(*self),
    {
        ensure_not_empty(self.api_addr.as_str(), "api_addr")?;
        ensure_not_empty(self.ws_addr.as_str(), "ws_addr")?;
        if let Some(data_dir) = &self.data_dir {
            ensure_not_empty(data_dir.as_str(), "data_dir")?;
        }
        Ok(())
    }

    /// The transport settings of a login, under the given operation id.
    pub fn transport_config(&self, credentials: &LoginCredentials, operation_id: &str) -> (r: Result<
        TransportConfig,
        OpenImError,
    >)
        ensures
            r is Ok <==> credentials_error(*credentials) is None,
            r matches Err(e) ==> Some(e@) == credentials_error(*credentials),
            r matches Ok(t) ==> {
                &&& t.ws_addr@ == self.ws_addr@
                &&& t.user_id@ == credentials.user_id@
                &&& t.token@ == credentials.token@
                &&& t.platform_id == self.platform.spec_id()
                &&& t.operation_id@ == operation_id@
                &&& t.sdk_type@ == "js"@
                &&& t.sdk_version@ == "rust-phase1-poc"@
                &&& !t.is_background
                &&& t.compression
                &&& t.send_response
            },
    {
        credentials.validate()?;
        Ok(
            TransportConfig::new(
                self.ws_addr.as_str(),
                credentials.user_id.as_str(),
                credentials.token.as_str(),
                self.platform.as_i32(),
                operation_id,
            ),
        )
    }

    /// Where the user's data is kept.
    pub fn storage_target(&self, login_user_id: &str) -> (r: Result<StorageTarget, OpenImError>)
        ensures
            r is Ok <==> login_user_id@.len() > 0,
            r matches Err(e) ==> e@ == error_of(10002, empty_message("login_user_id"@)),
            r matches Ok(t) ==> storage_target_of(*self, login_user_id@, t),
    {
        ensure_not_empty(login_user_id, "login_user_id")?;
        match self.platform {
            Platform::Web | Platform::MiniWeb => {
                return Ok(StorageTarget::IndexedDb { name: openim_indexeddb_name(login_user_id)? });
            },
            _ => {},
        }
        match &self.data_dir {
            None => Ok(StorageTarget::Unconfigured),
            Some(data_dir) => {
                let path = openim_db_file(self.current_dir.as_str(), data_dir.as_str(), login_user_id)?;
                Ok(StorageTarget::Sqlite { path })
            },
        }
    }
}

/// Where a session is in its lifecycle.
#[derive(Debug, Clone, Copy, PartialEq, Eq, Structural)]
pub enum SessionState {
    Created,
    Initialized,
    LoggedIn,
    LoggedOut,
    Uninitialized,
}

/// The number of a state for bindings: created 0, initialized 1, logged in
/// 2, logged out 3, uninitialized 4.
pub open spec fn spec_state_code(state: SessionState) -> i32 {
    match state {
        SessionState::Created => 0,
        SessionState::Initialized => 1,
        SessionState::LoggedIn => 2,
        SessionState::LoggedOut => 3,
        SessionState::Uninitialized => 4,
    }
}

pub fn state_code(state: SessionState) -> (r: i32)
    ensures
        r == spec_state_code(state),
{
    match state {
        SessionState::Created => 0,
        SessionState::Initialized => 1,
        SessionState::LoggedIn => 2,
        SessionState::LoggedOut => 3,
        SessionState::Uninitialized => 4,
    }
}

/// What a runtime resource is for.
#[derive(Debug, Clone, Copy, PartialEq, Eq, Structural)]
pub enum SessionResourceKind {
    Storage,
    Transport,
    Sync,
}

/// What a session tells its listeners.
#[derive(Debug, Clone, PartialEq, Eq)]
pub enum SessionEvent {
    Initialized,
    LoggedIn { user_id: String },
    LoggedOut { user_id: String },
    Uninitialized,
    ListenerRegistered { listener_id: ListenerId },
    ListenerUnregistered { listener_id: ListenerId },
    TaskStarted { name: String },
    TaskStopped { name: String },
    ResourceOpened { kind: SessionResourceKind, name: String },
    ResourceClosed { kind: SessionResourceKind, name: String },
    NewMessages { messages: Vec<ChatMessage> },
    ConversationChanged { conversations: Vec<ConversationInfo> },
}

/// The kind and name of a runtime resource.
#[derive(Debug, Clone, PartialEq, Eq)]
pub struct SessionResourceInfo {
    pub kind: SessionResourceKind,
    pub name: String,
}

/// Something a login opened that must be closed.
pub trait SessionResourceHandle: Send {
    fn close(&mut self) -> Result<(), OpenImError>;
}

/// Boxes a handle with `Box::new`, as a trait object. Trusted: nothing is
/// claimed of the box.
#[verifier::external_body]
fn box_handle<H: SessionResourceHandle + 'static>(handle: H) -> (r: Box<dyn SessionResourceHandle>) {
    Box::new(handle)
}

/// A named runtime resource and its handle.
pub struct SessionResource {
    kind: SessionResourceKind,
    name: String,
    handle: Box<dyn SessionResourceHandle>,
}

impl SessionResource {
    pub closed spec fn spec_kind(&self) -> SessionResourceKind {
        self.kind
    }

    pub closed spec fn spec_name(&self) -> Seq<char> {
        self.name@
    }

    /// A resource with a non-empty name.
    pub fn new<H: SessionResourceHandle + 'static>(kind: SessionResourceKind, name: &str, handle: H) -> (r:
        Result<SessionResource, OpenImError>)
        ensures
            r is Ok <==> name@.len() > 0,
            r matches Err(e) ==> e@ == error_of(10002, empty_message("resource_name"@)),
            r matches Ok(s) ==> s.spec_kind() == kind && s.spec_name() == name@,
    {
        ensure_not_empty(name, "resource_name")?;
        Ok(SessionResource { kind, name: owned(name), handle: box_handle(handle) })
    }

    pub fn kind(&self) -> (r: SessionResourceKind)
        ensures
            r == self.spec_kind(),
    {
        self.kind
    }

    pub fn name(&self) -> (r: &str)
        ensures
            r@ == self.spec_name(),
    {
        self.name.as_str()
    }

    pub fn info(&self) -> (r: SessionResourceInfo)
        ensures
            r.kind == self.spec_kind(),
            r.name@ == self.spec_name(),
    {
        SessionResourceInfo { kind: self.kind, name: self.name.clone() }
    }

    fn close(&mut self) -> (r: Result<(), OpenImError>)
        ensures
            final(self).spec_kind() == old(self).spec_kind(),
            final(self).spec_name() == old(self).spec_name(),
    {
        self.handle.close()
    }
}

/// The kind and name of each resource, in order.
pub open spec fn infos_of(s: Seq<SessionResource>) -> Seq<(SessionResourceKind, Seq<char>)> {
    s.map_values(|r: SessionResource| (r.spec_kind(), r.spec_name()))
}

/// The views of resource infos.
pub open spec fn info_views(s: Seq<SessionResourceInfo>) -> Seq<(SessionResourceKind, Seq<char>)> {
    s.map_values(|i: SessionResourceInfo| (i.kind, i.name@))
}

/// The items of `s` whose flag in `keep` is set, in order.
pub open spec fn kept<A>(s: Seq<A>, keep: Seq<bool>) -> Seq<A>
    decreases s.len(),
{
    if s.len() == 0 || keep.len() == 0 {
        Seq::empty()
    } else {
        (if keep[0] {
            seq![s[0]]
        } else {
            Seq::empty()
        }) + kept(s.drop_first(), keep.drop_first())
    }
}

/// With no flag set nothing is kept.
proof fn lemma_kept_none<A>(s: Seq<A>, keep: Seq<bool>)
    requires
        forall|j: int| 0 <= j < keep.len() ==> !#[trigger] keep[j],
    ensures
        kept(s, keep).len() == 0,
    decreases s.len(),
{
    if s.len() > 0 && keep.len() > 0 {
        assert forall|j: int| 0 <= j < keep.drop_first().len() implies !#[trigger] keep.drop_first()[j] by {
            assert(keep.drop_first()[j] == keep[j + 1]);
        }
        lemma_kept_none(s.drop_first(), keep.drop_first());
    }
}

/// Field-by-field equality of transport settings.
pub open spec fn transport_same(a: TransportConfig, b: TransportConfig) -> bool {
    &&& a.ws_addr@ == b.ws_addr@
    &&& a.user_id@ == b.user_id@
    &&& a.token@ == b.token@
    &&& a.platform_id == b.platform_id
    &&& a.operation_id@ == b.operation_id@
    &&& a.sdk_type@ == b.sdk_type@
    &&& a.sdk_version@ == b.sdk_version@
    &&& a.is_background == b.is_background
    &&& a.compression == b.compression
    &&& a.send_response == b.send_response
}

fn same_transport_config(left: &TransportConfig, right: &TransportConfig) -> (r: bool)
    ensures
        r == transport_same(*left, *right),
{
    left.ws_addr.eq(&right.ws_addr) && left.user_id.eq(&right.user_id) && left.token.eq(&right.token)
        && left.platform_id == right.platform_id && left.operation_id.eq(&right.operation_id)
        && left.sdk_type.eq(&right.sdk_type) && left.sdk_version.eq(&right.sdk_version)
        && left.is_background == right.is_background && left.compression == right.compression
        && left.send_response == right.send_response
}

fn copy_transport(t: &TransportConfig) -> (r: TransportConfig)
    ensures
        transport_same(r, *t),
{
    TransportConfig {
        ws_addr: t.ws_addr.clone(),
        user_id: t.user_id.clone(),
        token: t.token.clone(),
        platform_id: t.platform_id,
        operation_id: t.operation_id.clone(),
        sdk_type: t.sdk_type.clone(),
        sdk_version: t.sdk_version.clone(),
        is_background: t.is_background,
        compression: t.compression,
        send_response: t.send_response,
    }
}

/// The resources a login opened for a user.
pub struct SessionRuntimeResources {
    user_id: String,
    transport: TransportConfig,
    storage: StorageTarget,
    resources: Vec<SessionResource>,
    closes: Ghost<Seq<CloseCall>>,
}

/// One call of a resource's `close`: the resource's kind and name, and the
/// error it returned, if any.
pub type CloseCall = (SessionResourceKind, Seq<char>, Option<OpenImError>);

/// The calls close each resource once, the last added first.
pub open spec fn closed_in_reverse(infos: Seq<(SessionResourceKind, Seq<char>)>, calls: Seq<CloseCall>) -> bool {
    &&& calls.len() == infos.len()
    &&& forall|i: int| 0 <= i < calls.len() ==> (#[trigger] calls[i]).0 == infos[infos.len() - 1 - i].0
        && calls[i].1 == infos[infos.len() - 1 - i].1
}

/// The error a call returned, if any.
pub open spec fn outcome_error(o: Result<(), OpenImError>) -> Option<OpenImError> {
    match o {
        Ok(_) => None,
        Err(e) => Some(e),
    }
}

/// The error of the first call that failed.
pub open spec fn first_close_error(calls: Seq<CloseCall>) -> Option<OpenImError>
    decreases calls.len(),
{
    if calls.len() == 0 {
        None
    } else if first_close_error(calls.drop_last()) is Some {
        first_close_error(calls.drop_last())
    } else {
        calls.last().2
    }
}

/// Why resources do not belong to a login.
pub open spec fn mismatch_error(
    user: Seq<char>,
    transport: TransportConfig,
    storage: StorageTarget,
    credentials: LoginCredentials,
    expected_transport: TransportConfig,
    expected_storage: StorageTarget,
) -> Option<ErrorView> {
    if user != credentials.user_id@ {
        Some(error_of(10006, "resource adapter returned resources for a different user"@))
    } else if !transport_same(transport, expected_transport) {
        Some(error_of(10006, "resource adapter returned resources for a different transport config"@))
    } else if !storage_same(storage, expected_storage) {
        Some(error_of(10006, "resource adapter returned resources for a different storage target"@))
    } else {
        None
    }
}

impl SessionRuntimeResources {
    pub closed spec fn spec_user_id(&self) -> Seq<char> {
        self.user_id@
    }

    pub closed spec fn spec_transport(&self) -> TransportConfig {
        self.transport
    }

    pub closed spec fn spec_storage(&self) -> StorageTarget {
        self.storage
    }

    pub closed spec fn spec_infos(&self) -> Seq<(SessionResourceKind, Seq<char>)> {
        infos_of(self.resources@)
    }

    /// Every call of a resource's `close` made so far, in order.
    pub closed spec fn spec_closes(&self) -> Seq<CloseCall> {
        self.closes@
    }

    /// The resources of a user, none opened yet.
    pub fn new(user_id: &str, transport: TransportConfig, storage: StorageTarget) -> (r: Result<
        SessionRuntimeResources,
        OpenImError,
    >)
        ensures
            r is Ok <==> user_id@.len() > 0,
            r matches Err(e) ==> e@ == error_of(10002, empty_message("user_id"@)),
            r matches Ok(s) ==> s.spec_user_id() == user_id@ && s.spec_transport() == transport
                && s.spec_storage() == storage && s.spec_infos().len() == 0 && s.spec_closes().len() == 0,
    {
        ensure_not_empty(user_id, "user_id")?;
        let r = SessionRuntimeResources {
            user_id: owned(user_id),
            transport,
            storage,
            resources: Vec::new(),
            closes: Ghost(Seq::empty()),
        };
        assert(r.spec_infos() =~= Seq::<(SessionResourceKind, Seq<char>)>::empty());
        Ok(r)
    }

    pub fn add_resource(&mut self, resource: SessionResource)
        ensures
            final(self).spec_user_id() == old(self).spec_user_id(),
            final(self).spec_transport() == old(self).spec_transport(),
            final(self).spec_storage() == old(self).spec_storage(),
            final(self).spec_infos() == old(self).spec_infos().push(
                (resource.spec_kind(), resource.spec_name()),
            ),
            final(self).spec_closes() == old(self).spec_closes(),
    {
        let ghost before = self.resources@;
        self.resources.push(resource);
        assert(infos_of(self.resources@) =~= infos_of(before).push(
            (resource.spec_kind(), resource.spec_name()),
        ));
    }

    pub fn user_id(&self) -> (r: &str)
        ensures
            r@ == self.spec_user_id(),
    {
        self.user_id.as_str()
    }

    pub fn transport(&self) -> (r: &TransportConfig)
        ensures
            *r == self.spec_transport(),
    {
        &self.transport
    }

    pub fn storage(&self) -> (r: &StorageTarget)
        ensures
            *r == self.spec_storage(),
    {
        &self.storage
    }

    /// The kind and name of each resource, in the order they were added.
    pub fn resource_infos(&self) -> (r: Vec<SessionResourceInfo>)
        ensures
            info_views(r@) == self.spec_infos(),
    {
        let mut out: Vec<SessionResourceInfo> = Vec::new();
        let mut i: usize = 0;
        while i < self.resources.len()
            invariant
                i <= self.resources@.len(),
                info_views(out@) == infos_of(self.resources@).take(i as int),
            decreases self.resources.len() - i,
        {
            let ghost before = out@;
            out.push(self.resources[i].info());
            assert(info_views(out@) =~= info_views(before).push(infos_of(self.resources@)[i as int]));
            assert(infos_of(self.resources@).take(i + 1) =~= infos_of(self.resources@).take(i as int).push(
                infos_of(self.resources@)[i as int],
            ));
            i = i + 1;
        }
        assert(infos_of(self.resources@).take(i as int) =~= infos_of(self.resources@));
        out
    }

    /// Fails unless the resources belong to the given login.
    fn ensure_matches(&self, credentials: &LoginCredentials, transport: &TransportConfig, storage: &StorageTarget) -> (r:
        Result<(), OpenImError>)
        ensures
            r is Ok <==> mismatch_error(self.spec_user_id(), self.spec_transport(), self.spec_storage(), *credentials, *transport, *storage) is None,
            r matches Err(e) ==> Some(e@) == mismatch_error(self.spec_user_id(), self.spec_transport(), self.spec_storage(), *credentials, *transport, *storage),
    {
        if !self.user_id.eq(&credentials.user_id) {
            return Err(OpenImError::sdk_internal("resource adapter returned resources for a different user"));
        }
        if !same_transport_config(&self.transport, transport) {
            return Err(
                OpenImError::sdk_internal("resource adapter returned resources for a different transport config"),
            );
        }
        if !storage_equal(&self.storage, storage) {
            return Err(
                OpenImError::sdk_internal("resource adapter returned resources for a different storage target"),
            );
        }
        Ok(())
    }

    /// Closes every resource, the last added first. Those that fail to
    /// close stay, in their order, and the first failure is returned;
    /// otherwise the closed ones are returned in closing order.
    pub fn close_all(&mut self) -> (r: Result<Vec<SessionResourceInfo>, OpenImError>)
        ensures
            final(self).spec_user_id() == old(self).spec_user_id(),
            final(self).spec_transport() == old(self).spec_transport(),
            final(self).spec_storage() == old(self).spec_storage(),
            exists|failed: Seq<bool>| {
                &&& failed.len() == old(self).spec_infos().len()
                &&& final(self).spec_infos() == kept(old(self).spec_infos(), failed)
                &&& (r is Ok <==> forall|j: int| 0 <= j < failed.len() ==> !#[trigger] failed[j])
            },
            r matches Ok(closed) ==> info_views(closed@) == old(self).spec_infos().reverse()
                && final(self).spec_infos().len() == 0,
            ({
                let n0 = old(self).spec_closes().len();
                let calls = final(self).spec_closes().skip(n0 as int);
                &&& final(self).spec_closes().take(n0 as int) == old(self).spec_closes()
                &&& closed_in_reverse(old(self).spec_infos(), calls)
                &&& r is Ok <==> first_close_error(calls) is None
                &&& r matches Err(e) ==> first_close_error(calls) == Some(e)
                &&& exists|failed: Seq<bool>| {
                    &&& failed.len() == calls.len()
                    &&& final(self).spec_infos() == kept(old(self).spec_infos(), failed)
                    &&& forall|j: int| 0 <= j < failed.len() ==> #[trigger] failed[j] == (calls[calls.len() - 1 - j].2 is Some)
                }
            }),
    {
        let ghost log0 = self.closes@;
        let ghost start = self.resources@;
        let ghost infos = infos_of(start);
        let mut closed: Vec<SessionResourceInfo> = Vec::new();
        let mut remaining: Vec<SessionResource> = Vec::new();
        let mut first_error: Option<OpenImError> = None;
        let ghost mut failed: Seq<bool> = Seq::empty();
        let mut resources: Vec<SessionResource> = Vec::new();
        std::mem::swap(&mut resources, &mut self.resources);
        assert(infos.skip(infos.len() as int) =~= Seq::<(SessionResourceKind, Seq<char>)>::empty());
        assert(infos.take(infos.len() as int) =~= infos);
        while resources.len() > 0
            invariant
                infos_of(resources@) == infos.take(resources@.len() as int),
                resources@.len() <= infos.len(),
                failed.len() == infos.len() - resources@.len(),
                infos_of(remaining@).reverse() == kept(infos.skip(resources@.len() as int), failed),
                (first_error is None) == (forall|j: int| 0 <= j < failed.len() ==> !#[trigger] failed[j]),
                first_error is None ==> info_views(closed@) == infos.skip(resources@.len() as int).reverse(),
                self.user_id == old(self).user_id,
                self.transport == old(self).transport,
                self.storage == old(self).storage,
                infos == infos_of(old(self).resources@),
                log0 == old(self).closes@,
                self.closes@.take(log0.len() as int) == log0,
                self.closes@.len() == log0.len() + failed.len(),
                closed_in_reverse(infos.skip(resources@.len() as int), self.closes@.skip(log0.len() as int)),
                first_error == first_close_error(self.closes@.skip(log0.len() as int)),
                forall|j: int| 0 <= j < failed.len() ==> #[trigger] failed[j] == (self.closes@.skip(
                    log0.len() as int,
                )[failed.len() - 1 - j].2 is Some),
            decreases resources@.len(),
        {
            let ghost n = resources@.len() as int;
            let ghost before_resources = resources@;
            let mut resource = resources.pop().unwrap();
            let ghost a = (resource.spec_kind(), resource.spec_name());
            proof {
                assert(resources@ =~= before_resources.drop_last());
                assert(infos_of(resources@) =~= infos.take(n - 1));
                assert(infos.take(n)[n - 1] == a);
                assert(infos[n - 1] == a);
                assert(infos.skip(n - 1) =~= seq![a] + infos.skip(n));
            }
            let info = resource.info();
            let outcome = resource.close();
            let ghost call: CloseCall = (a.0, a.1, outcome_error(outcome));
            let ghost calls0 = self.closes@.skip(log0.len() as int);
            let ghost error0 = first_error;
            self.closes = Ghost(self.closes@.push(call));
            proof {
                assert(self.closes@.skip(log0.len() as int) =~= calls0.push(call));
                assert(self.closes@.take(log0.len() as int) =~= log0);
                assert(calls0.push(call).drop_last() =~= calls0);
                let calls1 = calls0.push(call);
                assert forall|i: int| 0 <= i < calls1.len() implies (#[trigger] calls1[i]).0 == infos.skip(n - 1)[infos.skip(n - 1).len() - 1 - i].0
                    && calls1[i].1 == infos.skip(n - 1)[infos.skip(n - 1).len() - 1 - i].1 by {
                    if i < calls0.len() {
                        assert(calls1[i] == calls0[i]);
                    }
                }
            }
            match outcome {
                Ok(()) => {
                    let ghost old_failed = failed;
                    let ghost old_closed = closed@;
                    closed.push(info);
                    proof {
                        failed = seq![false] + failed;
                        assert(failed.drop_first() =~= old_failed);
                        assert((seq![a] + infos.skip(n)).drop_first() =~= infos.skip(n));
                        assert(kept(infos.skip(n - 1), failed) == kept(infos.skip(n), old_failed));
                        if first_error is None {
                            assert(info_views(closed@) =~= info_views(old_closed).push(a));
                            assert(infos.skip(n - 1).reverse() =~= infos.skip(n).reverse().push(a));
                        }
                        assert forall|j: int| 0 <= j < old_failed.len() implies failed[j + 1] == old_failed[j] by {}
                        if forall|j: int| 0 <= j < old_failed.len() ==> !#[trigger] old_failed[j] {
                            assert forall|j: int| 0 <= j < failed.len() implies !#[trigger] failed[j] by {
                                if j > 0 {
                                    assert(failed[j] == old_failed[j - 1]);
                                }
                            }
                        } else {
                            let j = choose|j: int| 0 <= j < old_failed.len() && #[trigger] old_failed[j];
                            assert(failed[j + 1]);
                        }
                    }
                },
                Err(err) => {
                    if first_error.is_none() {
                        first_error = Some(err);
                    }
                    let ghost old_failed = failed;
                    let ghost old_remaining = remaining@;
                    remaining.push(resource);
                    proof {
                        failed = seq![true] + failed;
                        assert(failed.drop_first() =~= old_failed);
                        assert((seq![a] + infos.skip(n)).drop_first() =~= infos.skip(n));
                        assert(kept(infos.skip(n - 1), failed) == seq![a] + kept(infos.skip(n), old_failed));
                        assert(infos_of(remaining@) =~= infos_of(old_remaining).push(a));
                        assert(infos_of(remaining@).reverse() =~= seq![a] + infos_of(old_remaining).reverse());
                        assert(failed[0]);
                    }
                },
            }
        }
        proof {
            assert(infos.skip(0) =~= infos);
        }
        let ghost before_reverse = remaining@;
        let ghost total = before_reverse.len();
        let mut reordered: Vec<SessionResource> = Vec::new();
        while remaining.len() > 0
            invariant
                remaining@.len() + reordered@.len() == total,
                total == before_reverse.len(),
                remaining@ == before_reverse.take(remaining@.len() as int),
                infos_of(reordered@) == infos_of(before_reverse).reverse().take(reordered@.len() as int),
            decreases remaining@.len(),
        {
            let ghost k = remaining@.len() as int;
            let ghost before_pop = remaining@;
            let ghost old_reordered = reordered@;
            let item = remaining.pop().unwrap();
            proof {
                assert(before_pop == before_reverse.take(k));
                assert(item == before_pop[k - 1]);
                assert(before_pop[k - 1] == before_reverse[k - 1]);
                assert(remaining@ =~= before_pop.drop_last());
                assert(remaining@ =~= before_reverse.take(k - 1));
            }
            reordered.push(item);
            proof {
                assert(infos_of(reordered@) =~= infos_of(old_reordered).push(infos_of(before_reverse)[k - 1]));
                assert(infos_of(before_reverse).reverse().take(reordered@.len() as int) =~= infos_of(
                    before_reverse,
                ).reverse().take(old_reordered.len() as int).push(infos_of(before_reverse)[k - 1]));
            }
        }
        proof {
            assert(infos_of(before_reverse).reverse().take(total as int) =~= infos_of(before_reverse).reverse());
        }
        self.resources = reordered;
        proof {
            assert(self.spec_infos() == kept(infos, failed));
            if first_error is None {
                lemma_kept_none(infos, failed);
            }
        }
        let result = match first_error {
            Some(err) => Err(err),
            None => Ok(closed),
        };
        proof {
            assert(failed.len() == old(self).spec_infos().len());
            assert(self.spec_infos() == kept(old(self).spec_infos(), failed));
            assert(result is Ok <==> forall|j: int| 0 <= j < failed.len() ==> !#[trigger] failed[j]);
        }
        result
    }
}

/// The view of an event: its texts and lists as plain values.
pub enum EventView {
    Initialized,
    LoggedIn(Seq<char>),
    LoggedOut(Seq<char>),
    Uninitialized,
    ListenerRegistered(u64),
    ListenerUnregistered(u64),
    TaskStarted(Seq<char>),
    TaskStopped(Seq<char>),
    ResourceOpened(SessionResourceKind, Seq<char>),
    ResourceClosed(SessionResourceKind, Seq<char>),
    NewMessages(Seq<ChatMessage>),
    ConversationChanged(Seq<ConversationInfo>),
}

impl View for SessionEvent {
    type V = EventView;

    open spec fn view(&self) -> EventView {
        match self {
            SessionEvent::Initialized => EventView::Initialized,
            SessionEvent::LoggedIn { user_id } => EventView::LoggedIn(user_id@),
            SessionEvent::LoggedOut { user_id } => EventView::LoggedOut(user_id@),
            SessionEvent::Uninitialized => EventView::Uninitialized,
            SessionEvent::ListenerRegistered { listener_id } => EventView::ListenerRegistered(*listener_id),
            SessionEvent::ListenerUnregistered { listener_id } => EventView::ListenerUnregistered(*listener_id),
            SessionEvent::TaskStarted { name } => EventView::TaskStarted(name@),
            SessionEvent::TaskStopped { name } => EventView::TaskStopped(name@),
            SessionEvent::ResourceOpened { kind, name } => EventView::ResourceOpened(*kind, name@),
            SessionEvent::ResourceClosed { kind, name } => EventView::ResourceClosed(*kind, name@),
            SessionEvent::NewMessages { messages } => EventView::NewMessages(messages@),
            SessionEvent::ConversationChanged { conversations } => EventView::ConversationChanged(conversations@),
        }
    }
}

/// The empty literal stands for the empty text.
proof fn lemma_empty_literal()
    ensures
        ""@ == Seq::<char>::empty(),
{
    reveal_strlit("");
    assert(""@ =~= Seq::<char>::empty());
}

/// A task and whether it runs.
#[derive(Debug, Clone, PartialEq, Eq)]
pub struct TaskInfo {
    pub name: String,
    pub running: bool,
}

impl Duplicate for TaskInfo {
    fn duplicate(&self) -> (r: TaskInfo)
        ensures
            r == *self,
    {
        TaskInfo { name: self.name.clone(), running: self.running }
    }
}

impl Keyed for TaskInfo {
    open spec fn spec_key(&self) -> Key {
        (Seq::empty(), self.name@)
    }

    fn key_is(&self, scope: &str, id: &str) -> (r: bool) {
        proof {
            if scope@.len() == 0 {
                assert(scope@ =~= Seq::<char>::empty());
            }
        }
        scope.is_empty() && str_eq(self.name.as_str(), id)
    }

    fn same_key(&self, other: &Self) -> (r: bool) {
        self.name.eq(&other.name)
    }

    fn in_scope(&self, scope: &str) -> (r: bool) {
        proof {
            if scope@.len() == 0 {
                assert(scope@ =~= Seq::<char>::empty());
            }
        }
        scope.is_empty()
    }
}

impl ListOrder for TaskInfo {
    /// By name.
    open spec fn spec_before(&self, other: &Self) -> bool {
        seq_lt(self.name@, other.name@)
    }

    fn before(&self, other: &Self) -> (r: bool) {
        str_before(self.name.as_str(), other.name.as_str())
    }

    proof fn lemma_strict_total(a: Self, b: Self, c: Self) {
        lemma_lt_strict_total(a.name@, b.name@, c.name@);
    }
}

/// `r` lists the tasks of `m` once each, by name, with their state.
pub open spec fn lists_tasks(r: Seq<TaskInfo>, m: Map<Seq<char>, bool>) -> bool {
    &&& forall|i: int, j: int| 0 <= i < j < r.len() ==> seq_lt(r[i].name@, r[j].name@)
    &&& forall|i: int| 0 <= i < r.len() ==> m.contains_key(#[trigger] r[i].name@) && m[r[i].name@] == r[i].running
    &&& forall|n: Seq<char>| m.contains_key(n) ==> exists|i: int| 0 <= i < r.len() && #[trigger] r[i].name@ == n
}

/// `r` lists the running tasks of `m` once each, by name.
pub open spec fn lists_running(r: Seq<Seq<char>>, m: Map<Seq<char>, bool>) -> bool {
    &&& forall|i: int, j: int| 0 <= i < j < r.len() ==> seq_lt(r[i], r[j])
    &&& forall|i: int| 0 <= i < r.len() ==> m.contains_key(#[trigger] r[i]) && m[r[i]]
    &&& forall|n: Seq<char>| m.contains_key(n) && m[n] ==> exists|i: int| 0 <= i < r.len() && #[trigger] r[i] == n
}

/// The names of running tasks, by name.
pub struct TaskSupervisor {
    tasks: KeyedStore<TaskInfo>,
}

impl TaskSupervisor {
    #[verifier::type_invariant]
    closed spec fn wf(&self) -> bool {
        forall|k: Key| #[trigger] self.tasks.view().contains_key(k) ==> k.0 == Seq::<char>::empty()
            && self.tasks.view()[k].name@ == k.1
    }

    /// Each known task and whether it runs.
    pub closed spec fn view(&self) -> Map<Seq<char>, bool> {
        Map::new(
            |n: Seq<char>| self.tasks.view().contains_key((Seq::empty(), n)),
            |n: Seq<char>| self.tasks.view()[(Seq::empty(), n)].running,
        )
    }

    pub fn new() -> (r: TaskSupervisor)
        ensures
            r.view() == Map::<Seq<char>, bool>::empty(),
    {
        let r = TaskSupervisor { tasks: KeyedStore::new() };
        assert(r.view() =~= Map::<Seq<char>, bool>::empty());
        r
    }

    /// Marks a task running; says whether it was not running before.
    pub fn start(&mut self, name: &str) -> (r: Result<bool, OpenImError>)
        ensures
            r is Ok <==> name@.len() > 0,
            r matches Err(e) ==> e@ == error_of(10002, empty_message("task_name"@)) && final(self).view()
                == old(self).view(),
            r matches Ok(b) ==> b == !(old(self).view().contains_key(name@) && old(self).view()[name@])
                && final(self).view() == old(self).view().insert(name@, true),
    {
        proof {
            use_type_invariant(&*self);
        }
        ensure_not_empty(name, "task_name")?;
        proof {
            lemma_empty_literal();
        }
        let was_running = match self.tasks.get("", name) {
            Some(t) => t.running,
            None => false,
        };
        let ghost before = self.view();
        let mut tasks = KeyedStore::new();
        std::mem::swap(&mut tasks, &mut self.tasks);
        tasks.upsert(TaskInfo { name: owned(name), running: true });
        self.tasks = tasks;
        assert(self.view() =~= before.insert(name@, true));
        Ok(!was_running)
    }

    /// Marks a running task stopped; says whether it was running.
    pub fn stop(&mut self, name: &str) -> (r: Result<bool, OpenImError>)
        ensures
            r is Ok <==> name@.len() > 0,
            r matches Err(e) ==> e@ == error_of(10002, empty_message("task_name"@)) && final(self).view()
                == old(self).view(),
            r matches Ok(b) ==> b == (old(self).view().contains_key(name@) && old(self).view()[name@])
                && final(self).view() == (if b {
                old(self).view().insert(name@, false)
            } else {
                old(self).view()
            }),
    {
        proof {
            use_type_invariant(&*self);
        }
        ensure_not_empty(name, "task_name")?;
        proof {
            lemma_empty_literal();
        }
        let running = match self.tasks.get("", name) {
            Some(t) => t.running,
            None => false,
        };
        if !running {
            return Ok(false);
        }
        let ghost before = self.view();
        let mut tasks = KeyedStore::new();
        std::mem::swap(&mut tasks, &mut self.tasks);
        tasks.upsert(TaskInfo { name: owned(name), running: false });
        self.tasks = tasks;
        assert(self.view() =~= before.insert(name@, false));
        Ok(true)
    }

    /// Forgets every task; returns the names of those that were running,
    /// by name.
    pub fn stop_all(&mut self) -> (r: Vec<String>)
        ensures
            lists_running(r@.map_values(|s: String| s@), old(self).view()),
            final(self).view() == Map::<Seq<char>, bool>::empty(),
    {
        proof {
            use_type_invariant(&*self);
        }
        let listed = self.tasks();
        let ghost m = self.view();
        let mut stopped: Vec<String> = Vec::new();
        let ghost mut origin: Seq<int> = Seq::empty();
        let mut i: usize = 0;
        while i < listed.len()
            invariant
                i <= listed@.len(),
                lists_tasks(listed@, m),
                origin.len() == stopped@.len(),
                forall|a: int| 0 <= a < stopped@.len() ==> 0 <= #[trigger] origin[a] < i && stopped@[a]@
                    == listed@[origin[a]].name@ && listed@[origin[a]].running,
                forall|a: int, b: int| 0 <= a < b < stopped@.len() ==> origin[a] < origin[b],
                forall|j: int| 0 <= j < i && #[trigger] listed@[j].running ==> exists|a: int| 0 <= a < stopped@.len() && origin[a] == j,
            decreases listed.len() - i,
        {
            if listed[i].running {
                let ghost old_origin = origin;
                stopped.push(listed[i].name.clone());
                proof {
                    origin = origin.push(i as int);
                    assert forall|j: int| 0 <= j < i + 1 && #[trigger] listed@[j].running implies exists|a: int| 0 <= a < stopped@.len() && origin[a] == j by {
                        if j == i {
                            assert(origin[old_origin.len() as int] == j);
                        } else {
                            let a = choose|a: int| 0 <= a < old_origin.len() && old_origin[a] == j;
                            assert(origin[a] == j);
                        }
                    }
                }
            }
            i = i + 1;
        }
        let ghost names = stopped@.map_values(|s: String| s@);
        proof {
            assert forall|a: int, b: int| 0 <= a < b < names.len() implies seq_lt(names[a], names[b]) by {
                assert(origin[a] < origin[b]);
            }
            assert forall|n: Seq<char>| m.contains_key(n) && m[n] implies exists|a: int| 0 <= a < names.len() && #[trigger] names[a] == n by {
                let j = choose|j: int| 0 <= j < listed@.len() && #[trigger] listed@[j].name@ == n;
                assert(listed@[j].running);
                let a = choose|a: int| 0 <= a < stopped@.len() && origin[a] == j;
                assert(names[a] == n);
            }
            assert forall|a: int| 0 <= a < names.len() implies m.contains_key(#[trigger] names[a]) && m[names[a]] by {
                assert(names[a] == listed@[origin[a]].name@);
            }
        }
        self.tasks = KeyedStore::new();
        assert(self.view() =~= Map::<Seq<char>, bool>::empty());
        stopped
    }

    pub fn is_running(&self, name: &str) -> (r: bool)
        ensures
            r == (self.view().contains_key(name@) && self.view()[name@]),
    {
        proof {
            lemma_empty_literal();
        }
        match self.tasks.get("", name) {
            Some(t) => t.running,
            None => false,
        }
    }

    /// Every task, by name.
    pub fn tasks(&self) -> (r: Vec<TaskInfo>)
        ensures
            lists_tasks(r@, self.view()),
    {
        proof {
            use_type_invariant(self);
        }
        let r = list_every(&self.tasks);
        proof {
            let m = self.tasks.view();
            assert(lists_every(r@, m));
            assert(lists_exactly(r@, m, |k: Key| true));
            assert forall|i: int, j: int| 0 <= i < j < r@.len() implies seq_lt(r@[i].name@, r@[j].name@) by {
                assert(r@[i].spec_before(&r@[j]));
            }
            assert forall|i: int| 0 <= i < r@.len() implies self.view().contains_key(#[trigger] r@[i].name@)
                && self.view()[r@[i].name@] == r@[i].running by {
                assert(m.contains_key(r@[i].spec_key()) && m[r@[i].spec_key()] == r@[i]);
                assert(r@[i].spec_key() == (Seq::<char>::empty(), r@[i].name@));
            }
            assert forall|n: Seq<char>| self.view().contains_key(n) implies exists|i: int| 0 <= i < r@.len() && #[trigger] r@[i].name@ == n by {
                let k: Key = (Seq::empty(), n);
                assert(m.contains_key(k));
                let i = choose|i: int| 0 <= i < r@.len() && #[trigger] r@[i].spec_key() == k;
                assert(r@[i].name@ == n);
            }
        }
        r
    }
}

impl Default for TaskSupervisor {
    fn default() -> (r: TaskSupervisor)
        ensures
            r.view() == Map::<Seq<char>, bool>::empty(),
    {
        TaskSupervisor::new()
    }
}

/// Something told of a session's events.
pub trait SessionListener: Send + Sync {
    fn on_event(&self, event: &SessionEvent);
}

/// A listener that is a callback.
pub struct CallbackListener<F> {
    callback: F,
}

/// Calls a callback with an event (`Fn::call`). Trusted: nothing is claimed
/// of the callback.
#[verifier::external_body]
fn call_callback<F: Fn(&SessionEvent)>(callback: &F, event: &SessionEvent) {
    callback(event)
}

impl<F: Fn(&SessionEvent) + Send + Sync> SessionListener for CallbackListener<F> {
    fn on_event(&self, event: &SessionEvent) {
        call_callback(&self.callback, event)
    }
}

/// Boxes a callback listener with `Box::new`, as a trait object. Trusted:
/// nothing is claimed of the box.
#[verifier::external_body]
fn box_listener<F: Fn(&SessionEvent) + Send + Sync + 'static>(callback: F) -> (r: Box<dyn SessionListener>) {
    Box::new(CallbackListener { callback })
}

/// What merging a transport's answer to a pull of conversation `cid` does
/// from session `s0` to `s1` with result `r`: a failed answer is returned
/// as it came and changes nothing; pulled messages are checked, merged into
/// the store, advance their conversations and are told of, and returned.
pub open spec fn pull_merged(
    s0: OpenImSession,
    cid: Seq<char>,
    answer: Result<Vec<ChatMessage>, OpenImError>,
    r: Result<Vec<ChatMessage>, OpenImError>,
    s1: OpenImSession,
) -> bool {
    &&& s0.spec_state() != SessionState::LoggedIn ==> (r matches Err(e) && e@ == not_logged_in() && s1.same_as(&s0))
    &&& s0.spec_state() == SessionState::LoggedIn && s0.spec_login() is Some && cid.len() == 0 ==> (r matches Err(e)
        && e@ == error_of(10002, empty_message("conversation_id"@)) && s1.same_as(&s0))
    &&& s1.spec_config() == s0.spec_config()
    &&& s1.spec_state() == s0.spec_state()
    &&& s1.spec_login() == s0.spec_login()
    &&& s1.spec_runtime() == s0.spec_runtime()
    &&& s1.spec_ids() == s0.spec_ids()
    &&& s1.spec_next_id() == s0.spec_next_id()
    &&& s1.spec_tasks() == s0.spec_tasks()
    &&& others_kept(s1.spec_domains(), s0.spec_domains())
    &&& r matches Ok(v) ==> (v@.len() == 0 ==> s1.same_as(&s0))
    &&& r matches Ok(v) ==> (v@.len() > 0 ==> s0.spec_login() is Some)
    &&& r matches Ok(v) ==> (v@.len() > 0 ==> forall|i: int| 0 <= i < v@.len() ==> visible_to(
        s0.spec_login()->Some_0,
        #[trigger] v@[i],
    ))
    &&& r matches Ok(v) ==> (v@.len() > 0 ==> s1.spec_domains().messages.view() == crate::domain::apply_actions(
        s0.spec_domains().messages.view(),
        crate::sync::spec_diff(
            v@,
            crate::domain::listing(s0.spec_domains().messages.view(), cid),
            crate::sync::DiffOptions { skip_deletion: true, include_unchanged: true },
        ),
    ))
    &&& r matches Ok(v) ==> (v@.len() > 0 ==> exists|outs: Seq<ConversationInfo>| applied_all(
        s0.spec_domains().conversations.view(),
        s0.spec_login()->Some_0,
        v@,
        outs,
        s1.spec_domains().conversations.view(),
    ) && s1.spec_log() == s0.spec_log() + seq![
        (s0.spec_ids(), EventView::NewMessages(v@)),
        (s0.spec_ids(), EventView::ConversationChanged(by_conversation(outs))),
    ])
    &&& s0.spec_state() == SessionState::LoggedIn && s0.spec_login() is Some && cid.len() > 0 ==> {
        &&& answer matches Err(x) ==> (r == Err::<Vec<ChatMessage>, OpenImError>(x) && s1.same_as(&s0))
        &&& answer matches Ok(p) ==> (r matches Ok(v) ==> v@ == p@)
        &&& answer matches Ok(p) ==> (p@.len() == 0 ==> r is Ok && s1.same_as(&s0))
    }
}

/// How a received message is stored: one still sending counts as sent.
pub open spec fn received_form(m: ChatMessage) -> ChatMessage {
    if m.status == MessageStatus::Sending {
        ChatMessage { status: MessageStatus::SendSuccess, ..m }
    } else {
        m
    }
}

/// What applying a transport's answer of pushed messages does from session
/// `s0` to `s1` with result `r`: a failed answer is returned as it came and
/// changes nothing; pushed messages are checked, stored, advance their
/// conversations and are told of, and returned as stored.
pub open spec fn pushes_applied(
    s0: OpenImSession,
    answer: Result<Vec<ChatMessage>, OpenImError>,
    r: Result<Vec<ChatMessage>, OpenImError>,
    s1: OpenImSession,
) -> bool {
    &&& s0.spec_state() != SessionState::LoggedIn ==> (r matches Err(e) && e@ == not_logged_in() && s1.same_as(&s0))
    &&& s1.spec_config() == s0.spec_config()
    &&& s1.spec_state() == s0.spec_state()
    &&& s1.spec_login() == s0.spec_login()
    &&& s1.spec_runtime() == s0.spec_runtime()
    &&& s1.spec_ids() == s0.spec_ids()
    &&& s1.spec_next_id() == s0.spec_next_id()
    &&& s1.spec_tasks() == s0.spec_tasks()
    &&& others_kept(s1.spec_domains(), s0.spec_domains())
    &&& r matches Ok(v) ==> (v@.len() == 0 ==> s1.same_as(&s0))
    &&& r matches Ok(v) ==> (v@.len() > 0 ==> s0.spec_login() is Some)
    &&& r matches Ok(v) ==> (v@.len() > 0 ==> forall|i: int| 0 <= i < v@.len() ==> visible_to(
        s0.spec_login()->Some_0,
        #[trigger] v@[i],
    ) && crate::domain::message::message_error(v@[i]) is None && v@[i].status != MessageStatus::Sending)
    &&& r matches Ok(v) ==> (v@.len() > 0 ==> s1.spec_domains().messages.view() == stored_all(
        s0.spec_domains().messages.view(),
        v@,
    ))
    &&& r matches Ok(v) ==> (v@.len() > 0 ==> exists|outs: Seq<ConversationInfo>| applied_all(
        s0.spec_domains().conversations.view(),
        s0.spec_login()->Some_0,
        v@,
        outs,
        s1.spec_domains().conversations.view(),
    ) && s1.spec_log() == s0.spec_log() + seq![
        (s0.spec_ids(), EventView::NewMessages(v@)),
        (s0.spec_ids(), EventView::ConversationChanged(by_conversation(outs))),
    ])
    &&& s0.spec_state() == SessionState::LoggedIn && s0.spec_login() is Some ==> {
        &&& answer matches Err(x) ==> (r == Err::<Vec<ChatMessage>, OpenImError>(x) && s1.same_as(&s0))
        &&& answer matches Ok(p) ==> (r matches Ok(v) ==> v@.len() == p@.len() && forall|i: int|
            0 <= i < v@.len() ==> #[trigger] v@[i] == received_form(p@[i]))
        &&& answer matches Ok(p) ==> (p@.len() == 0 ==> r is Ok && s1.same_as(&s0))
    }
}

/// Whether a login's resources, if any, hold nothing to close.
pub open spec fn no_open_resources(rt: Option<SessionRuntimeResources>) -> bool {
    rt matches Some(r) ==> r.spec_infos().len() == 0
}

/// The session's listeners, in the order they registered, and what each
/// emitted event went to.
pub struct ListenerRegistry {
    next_id: ListenerId,
    listeners: Vec<(ListenerId, Box<dyn SessionListener>)>,
    log: Ghost<Seq<(Seq<ListenerId>, EventView)>>,
}

/// The identifiers of registered listeners, in order.
pub open spec fn ids_of(s: Seq<(ListenerId, Box<dyn SessionListener>)>) -> Seq<ListenerId> {
    s.map_values(|p: (ListenerId, Box<dyn SessionListener>)| p.0)
}

impl ListenerRegistry {
    #[verifier::type_invariant]
    closed spec fn wf(&self) -> bool {
        &&& forall|i: int, j: int| 0 <= i < j < self.listeners@.len() ==> ids_of(self.listeners@)[i] < ids_of(self.listeners@)[j]
        &&& forall|i: int| 0 <= i < self.listeners@.len() ==> ids_of(self.listeners@)[i] <= self.next_id
    }

    /// The identifiers of the listeners, in registration order.
    pub closed spec fn spec_ids(&self) -> Seq<ListenerId> {
        ids_of(self.listeners@)
    }

    /// The last identifier handed out.
    pub closed spec fn spec_next_id(&self) -> ListenerId {
        self.next_id
    }

    /// Each emitted event, with the listeners it went to.
    pub closed spec fn spec_log(&self) -> Seq<(Seq<ListenerId>, EventView)> {
        self.log@
    }

    pub fn new() -> (r: ListenerRegistry)
        ensures
            r.spec_ids().len() == 0,
            r.spec_next_id() == 0,
            r.spec_log().len() == 0,
    {
        let r = ListenerRegistry { next_id: 0, listeners: Vec::new(), log: Ghost(Seq::empty()) };
        assert(r.spec_ids() =~= Seq::<ListenerId>::empty());
        r
    }

    /// Registers a callback under the next identifier.
    pub fn register<F>(&mut self, callback: F) -> (r: ListenerId)
        where
            F: Fn(&SessionEvent) + Send + Sync + 'static,
        requires
            old(self).spec_next_id() < u64::MAX,
        ensures
            r == old(self).spec_next_id() + 1,
            final(self).spec_next_id() == r,
            final(self).spec_ids() == old(self).spec_ids().push(r),
            final(self).spec_log() == old(self).spec_log(),
    {
        proof {
            use_type_invariant(&*self);
        }
        let listener_id = self.next_id + 1;
        let mut listeners: Vec<(ListenerId, Box<dyn SessionListener>)> = Vec::new();
        std::mem::swap(&mut listeners, &mut self.listeners);
        let ghost before = listeners@;
        let entry = (listener_id, box_listener(callback));
        listeners.push(entry);
        proof {
            assert(listeners@ == before.push(entry));
            assert(ids_of(listeners@) =~= ids_of(before).push(listener_id));
        }
        self.next_id = listener_id;
        self.listeners = listeners;
        listener_id
    }

    /// Removes a listener; says whether it was registered.
    pub fn unregister(&mut self, listener_id: ListenerId) -> (r: bool)
        ensures
            r == old(self).spec_ids().contains(listener_id),
            r ==> exists|i: int| 0 <= i < old(self).spec_ids().len() && old(self).spec_ids()[i] == listener_id
                && final(self).spec_ids() == old(self).spec_ids().remove(i),
            !r ==> final(self).spec_ids() == old(self).spec_ids(),
            !final(self).spec_ids().contains(listener_id),
            final(self).spec_next_id() == old(self).spec_next_id(),
            final(self).spec_log() == old(self).spec_log(),
    {
        proof {
            use_type_invariant(&*self);
        }
        let ghost orig = self.listeners@;
        let mut i: usize = 0;
        while i < self.listeners.len()
            invariant
                i <= self.listeners@.len(),
                self.listeners@ == orig,
                self.next_id == old(self).next_id,
                self.log == old(self).log,
                orig == old(self).listeners@,
                forall|a: int, b: int| 0 <= a < b < orig.len() ==> ids_of(orig)[a] < ids_of(orig)[b],
                forall|a: int| 0 <= a < orig.len() ==> ids_of(orig)[a] <= self.next_id,
                forall|j: int| 0 <= j < i ==> ids_of(self.listeners@)[j] != listener_id,
            decreases self.listeners.len() - i,
        {
            if self.listeners[i].0 == listener_id {
                let mut listeners: Vec<(ListenerId, Box<dyn SessionListener>)> = Vec::new();
                std::mem::swap(&mut listeners, &mut self.listeners);
                let ghost before = listeners@;
                listeners.remove(i);
                assert(ids_of(listeners@) =~= ids_of(before).remove(i as int));
                proof {
                    assert(ids_of(before)[i as int] == listener_id);
                    assert forall|a: int, b: int| 0 <= a < b < listeners@.len() implies ids_of(listeners@)[a] < ids_of(listeners@)[b] by {
                        let a2 = if a < i { a } else { a + 1 };
                        let b2 = if b < i { b } else { b + 1 };
                        assert(ids_of(listeners@)[a] == ids_of(before)[a2]);
                        assert(ids_of(listeners@)[b] == ids_of(before)[b2]);
                    }
                    assert forall|a: int| 0 <= a < listeners@.len() implies ids_of(listeners@)[a] <= self.next_id by {
                        let a2 = if a < i { a } else { a + 1 };
                        assert(ids_of(listeners@)[a] == ids_of(before)[a2]);
                    }
                }
                self.listeners = listeners;
                proof {
                    assert(old(self).spec_ids()[i as int] == listener_id);
                    if self.spec_ids().contains(listener_id) {
                        let k = choose|k: int| 0 <= k < self.spec_ids().len() && self.spec_ids()[k] == listener_id;
                        let k2 = if k < i { k } else { k + 1 };
                        assert(self.spec_ids()[k] == ids_of(before)[k2]);
                        assert(k2 != i);
                    }
                }
                return true;
            }
            i = i + 1;
        }
        proof {
            assert(!old(self).spec_ids().contains(listener_id));
        }
        false
    }

    /// Tells every listener of an event, in registration order.
    pub fn emit(&mut self, event: &SessionEvent)
        ensures
            final(self).spec_ids() == old(self).spec_ids(),
            final(self).spec_next_id() == old(self).spec_next_id(),
            final(self).spec_log() == old(self).spec_log().push((old(self).spec_ids(), event@)),
    {
        proof {
            use_type_invariant(&*self);
        }
        let mut i: usize = 0;
        while i < self.listeners.len()
            invariant
                i <= self.listeners@.len(),
            decreases self.listeners.len() - i,
        {
            self.listeners[i].1.on_event(event);
            i = i + 1;
        }
        let ghost ids = self.spec_ids();
        self.log = Ghost(self.log@.push((ids, event@)));
    }

    pub fn len(&self) -> (r: usize)
        ensures
            r == self.spec_ids().len(),
    {
        self.listeners.len()
    }

    pub fn is_empty(&self) -> (r: bool)
        ensures
            r == (self.spec_ids().len() == 0),
    {
        self.listeners.len() == 0
    }
}

impl Default for ListenerRegistry {
    fn default() -> (r: ListenerRegistry)
        ensures
            r.spec_ids().len() == 0,
            r.spec_next_id() == 0,
            r.spec_log().len() == 0,
    {
        ListenerRegistry::new()
    }
}

/// The domain services of a logged-in user.
pub struct DomainServices {
    pub users: UserService,
    pub relations: RelationService,
    pub groups: GroupService,
    pub messages: MessageService,
    pub conversations: ConversationService,
}

/// Whether every service holds nothing.
pub open spec fn domains_empty(d: DomainServices) -> bool {
    &&& d.users.view() == Map::<Key, crate::domain::user::UserProfile>::empty()
    &&& d.relations.friends_view() == Map::<Key, crate::domain::relation::FriendInfo>::empty()
    &&& d.relations.blacklist_view() == Map::<Key, crate::domain::relation::BlacklistInfo>::empty()
    &&& d.groups.groups_view() == Map::<Key, crate::domain::group::GroupInfo>::empty()
    &&& d.groups.members_view() == Map::<Key, crate::domain::group::GroupMemberInfo>::empty()
    &&& d.messages.view() == Map::<Key, ChatMessage>::empty()
    &&& d.conversations.view() == Map::<Key, ConversationInfo>::empty()
}

impl DomainServices {
    pub fn new() -> (r: DomainServices)
        ensures
            domains_empty(r),
    {
        DomainServices {
            users: UserService::new(),
            relations: RelationService::new(),
            groups: GroupService::new(),
            messages: MessageService::new(),
            conversations: ConversationService::new(),
        }
    }
}

impl Default for DomainServices {
    fn default() -> (r: DomainServices)
        ensures
            domains_empty(r),
    {
        DomainServices::new()
    }
}

/// What a platform does at the lifecycle boundaries: open and close the
/// resources of a login.
pub trait SessionResourceAdapter: Send {
    fn init(&mut self, config: &SessionConfig) -> Result<(), OpenImError>;

    fn login(
        &mut self,
        config: &SessionConfig,
        credentials: &LoginCredentials,
        transport: &TransportConfig,
        storage: &StorageTarget,
    ) -> Result<SessionRuntimeResources, OpenImError>;

    fn logout(&mut self, user_id: &str) -> Result<(), OpenImError>;

    fn uninit(&mut self) -> Result<(), OpenImError>;
}

/// The adapter of a session: the one that opens nothing, or one that a
/// platform gives.
pub enum ResourceAdapter {
    Noop(NoopSessionResourceAdapter),
    Custom(Box<dyn SessionResourceAdapter>),
}

impl ResourceAdapter {
    fn init(&mut self, config: &SessionConfig) -> (r: Result<(), OpenImError>)
        ensures
            *old(self) is Noop ==> r is Ok,
            (*final(self) is Noop) == (*old(self) is Noop),
    {
        match self {
            ResourceAdapter::Noop(a) => a.init(config),
            ResourceAdapter::Custom(a) => a.init(config),
        }
    }

    fn login(
        &mut self,
        config: &SessionConfig,
        credentials: &LoginCredentials,
        transport: &TransportConfig,
        storage: &StorageTarget,
    ) -> (r: Result<SessionRuntimeResources, OpenImError>)
        ensures
            (*final(self) is Noop) == (*old(self) is Noop),
            *old(self) is Noop ==> {
                &&& r is Ok <==> credentials.user_id@.len() > 0
                &&& r matches Ok(s) ==> s.spec_user_id() == credentials.user_id@ && transport_same(
                    s.spec_transport(),
                    *transport,
                ) && s.spec_storage() == *storage && s.spec_infos().len() == 0
            },
    {
        match self {
            ResourceAdapter::Noop(a) => a.login(config, credentials, transport, storage),
            ResourceAdapter::Custom(a) => a.login(config, credentials, transport, storage),
        }
    }

    fn logout(&mut self, user_id: &str) -> (r: Result<(), OpenImError>)
        ensures
            *old(self) is Noop ==> r is Ok,
            (*final(self) is Noop) == (*old(self) is Noop),
    {
        match self {
            ResourceAdapter::Noop(a) => a.logout(user_id),
            ResourceAdapter::Custom(a) => a.logout(user_id),
        }
    }

    fn uninit(&mut self) -> (r: Result<(), OpenImError>)
        ensures
            *old(self) is Noop ==> r is Ok,
            (*final(self) is Noop) == (*old(self) is Noop),
    {
        match self {
            ResourceAdapter::Noop(a) => a.uninit(),
            ResourceAdapter::Custom(a) => a.uninit(),
        }
    }
}

/// Sends, pulls and receives pushed messages for a session.
pub trait SessionMessageTransport: MessageSender {
    fn pull_messages(&mut self, owner_user_id: &str, conversation_id: &str) -> Result<
        Vec<ChatMessage>,
        OpenImError,
    >;

    fn pop_push_messages(&mut self, owner_user_id: &str) -> Result<Vec<ChatMessage>, OpenImError>;
}

/// An adapter that opens nothing.
#[derive(Debug, Default)]
pub struct NoopSessionResourceAdapter;

impl SessionResourceAdapter for NoopSessionResourceAdapter {
    fn init(&mut self, config: &SessionConfig) -> (r: Result<(), OpenImError>)
        ensures
            r is Ok,
    {
        Ok(())
    }

    /// Resources of the login's user, with its transport settings and
    /// storage target, none opened.
    fn login(
        &mut self,
        config: &SessionConfig,
        credentials: &LoginCredentials,
        transport: &TransportConfig,
        storage: &StorageTarget,
    ) -> (r: Result<SessionRuntimeResources, OpenImError>)
        ensures
            r is Ok <==> credentials.user_id@.len() > 0,
            r matches Err(e) ==> e@ == error_of(10002, empty_message("user_id"@)),
            r matches Ok(s) ==> s.spec_user_id() == credentials.user_id@ && transport_same(
                s.spec_transport(),
                *transport,
            ) && s.spec_storage() == *storage && s.spec_infos().len() == 0,
    {
        SessionRuntimeResources::new(
            credentials.user_id.as_str(),
            copy_transport(transport),
            copy_storage(storage),
        )
    }

    fn logout(&mut self, user_id: &str) -> (r: Result<(), OpenImError>)
        ensures
            r is Ok,
    {
        Ok(())
    }

    fn uninit(&mut self) -> (r: Result<(), OpenImError>)
        ensures
            r is Ok,
    {
        Ok(())
    }
}


/// The time in milliseconds since the Unix epoch, read with
/// `SystemTime::now`. Trusted: nothing is claimed of the value, which
/// depends on the clock.
#[verifier::external_body]
fn unix_millis() -> (r: u64) {
    std::time::SystemTime::now().duration_since(std::time::UNIX_EPOCH).map(|d| d.as_millis() as u64).unwrap_or_default()
}

/// Events, each going to the same listeners.
pub open spec fn emitted(ids: Seq<ListenerId>, events: Seq<EventView>) -> Seq<(Seq<ListenerId>, EventView)> {
    events.map_values(|e: EventView| (ids, e))
}

/// Whether a task runs.
pub open spec fn runs(m: Map<Seq<char>, bool>, name: Seq<char>) -> bool {
    m.contains_key(name) && m[name]
}

/// The opening of each resource.
pub open spec fn opened_events(infos: Seq<(SessionResourceKind, Seq<char>)>) -> Seq<EventView> {
    infos.map_values(|i: (SessionResourceKind, Seq<char>)| EventView::ResourceOpened(i.0, i.1))
}

/// The closing of each resource.
pub open spec fn closed_events(infos: Seq<(SessionResourceKind, Seq<char>)>) -> Seq<EventView> {
    infos.map_values(|i: (SessionResourceKind, Seq<char>)| EventView::ResourceClosed(i.0, i.1))
}

/// The stopping of each task.
pub open spec fn stopped_events(names: Seq<Seq<char>>) -> Seq<EventView> {
    names.map_values(|n: Seq<char>| EventView::TaskStopped(n))
}

/// The starts a login makes: the transport task, then the sync task, each
/// unless it runs already.
pub open spec fn login_task_events(m: Map<Seq<char>, bool>) -> Seq<EventView> {
    (if runs(m, "transport"@) {
        Seq::empty()
    } else {
        seq![EventView::TaskStarted("transport"@)]
    }) + (if runs(m, "sync"@) {
        Seq::empty()
    } else {
        seq![EventView::TaskStarted("sync"@)]
    })
}

/// The closed resources of a runtime that was there, in closing order.
pub open spec fn closing_of(runtime: Option<SessionRuntimeResources>) -> Seq<(SessionResourceKind, Seq<char>)> {
    match runtime {
        Some(rt) => rt.spec_infos().reverse(),
        None => Seq::empty(),
    }
}

/// The login's resources, in the order they were added.
pub open spec fn opened_of(runtime: Option<SessionRuntimeResources>) -> Seq<(SessionResourceKind, Seq<char>)> {
    match runtime {
        Some(rt) => rt.spec_infos(),
        None => Seq::empty(),
    }
}

/// The close calls recorded from `before` to `after` closed the login's
/// resources once each, the last added first.
pub open spec fn closes_recorded(
    before: Seq<CloseCall>,
    after: Seq<CloseCall>,
    runtime: Option<SessionRuntimeResources>,
) -> bool {
    &&& after.len() >= before.len()
    &&& after.take(before.len() as int) == before
    &&& closed_in_reverse(opened_of(runtime), after.skip(before.len() as int))
}

/// The error of a login that the session refuses before any work.
pub open spec fn login_error(state: SessionState, credentials: LoginCredentials) -> Option<ErrorView> {
    match credentials_error(credentials) {
        Some(e) => Some(e),
        None => match state {
            SessionState::LoggedIn => Some(error_of(10002, "session already logged in"@)),
            SessionState::Created | SessionState::Uninitialized => Some(error_of(10002, "session is not initialized"@)),
            _ => None,
        },
    }
}

/// The error of a call that needs a logged-in session.
pub open spec fn not_logged_in() -> ErrorView {
    error_of(10002, "session is not logged in"@)
}

/// Conversation `c` is what applying `msg` for `owner` makes of the map
/// `m0`, which becomes `m1`.
pub open spec fn applied_one(
    m0: Map<Key, ConversationInfo>,
    owner: Seq<char>,
    msg: ChatMessage,
    c: ConversationInfo,
    m1: Map<Key, ConversationInfo>,
) -> bool {
    let key = (owner, msg.conversation_id@);
    &&& m1 == m0.insert(key, c)
    &&& m0.contains_key(key) ==> crate::domain::conversation::advanced(m0[key], owner, msg, c)
    &&& !m0.contains_key(key) ==> exists|f: ConversationInfo|
        crate::domain::conversation::fresh_conversation(owner, msg, f)
            && crate::domain::conversation::advanced(f, owner, msg, c)
}

/// Some message before the `i`-th belongs to conversation `cid`.
pub open spec fn seen_before(msgs: Seq<ChatMessage>, i: int, cid: Seq<char>) -> bool {
    exists|j: int| 0 <= j < i && #[trigger] msgs[j].conversation_id@ == cid
}

/// Why the `i`-th message cannot advance its conversation once the earlier
/// ones have: an empty owner, or a conversation neither stored nor created
/// by an earlier message whose target is invalid.
pub open spec fn apply_error_at(
    m0: Map<Key, ConversationInfo>,
    owner: Seq<char>,
    msgs: Seq<ChatMessage>,
    i: int,
) -> Option<ErrorView> {
    if owner.len() == 0 {
        Some(error_of(10002, empty_message("owner_user_id"@)))
    } else if m0.contains_key((owner, msgs[i].conversation_id@)) || seen_before(msgs, i, msgs[i].conversation_id@) {
        None
    } else {
        crate::domain::conversation::target_error(owner, msgs[i])
    }
}

/// The first error among the first `n` messages.
pub open spec fn first_apply_error(
    m0: Map<Key, ConversationInfo>,
    owner: Seq<char>,
    msgs: Seq<ChatMessage>,
    n: int,
) -> Option<ErrorView>
    decreases n,
{
    if n <= 0 {
        None
    } else if first_apply_error(m0, owner, msgs, n - 1) is Some {
        first_apply_error(m0, owner, msgs, n - 1)
    } else {
        apply_error_at(m0, owner, msgs, n - 1)
    }
}

proof fn lemma_first_apply_error_stays(
    m0: Map<Key, ConversationInfo>,
    owner: Seq<char>,
    msgs: Seq<ChatMessage>,
    n: int,
    k: int,
)
    requires
        0 <= n <= k,
        first_apply_error(m0, owner, msgs, n) is Some,
    ensures
        first_apply_error(m0, owner, msgs, k) == first_apply_error(m0, owner, msgs, n),
    decreases k - n,
{
    if k > n {
        lemma_first_apply_error_stays(m0, owner, msgs, n, k - 1);
    }
}

/// Applying the messages one after the other takes `m0` to `m1`, each
/// giving the conversation in `outs`.
pub open spec fn applied_all(
    m0: Map<Key, ConversationInfo>,
    owner: Seq<char>,
    msgs: Seq<ChatMessage>,
    outs: Seq<ConversationInfo>,
    m1: Map<Key, ConversationInfo>,
) -> bool
    decreases msgs.len(),
{
    if msgs.len() == 0 {
        outs.len() == 0 && m1 == m0
    } else {
        outs.len() == msgs.len() && exists|mid: Map<Key, ConversationInfo>|
            applied_all(m0, owner, msgs.drop_last(), outs.drop_last(), mid) && applied_one(
                mid,
                owner,
                msgs.last(),
                outs.last(),
                m1,
            )
    }
}

/// `l` with `c` in it by conversation id: an entry with the same id is
/// replaced in place, else `c` goes before the first greater id.
pub open spec fn put_by_id(l: Seq<ConversationInfo>, c: ConversationInfo) -> Seq<ConversationInfo>
    decreases l.len(),
{
    if l.len() == 0 {
        seq![c]
    } else if l[0].conversation_id@ == c.conversation_id@ {
        seq![c] + l.drop_first()
    } else if seq_lt(c.conversation_id@, l[0].conversation_id@) {
        seq![c] + l
    } else {
        seq![l[0]] + put_by_id(l.drop_first(), c)
    }
}

/// The last conversation of each id in `outs`, by id.
pub open spec fn by_conversation(outs: Seq<ConversationInfo>) -> Seq<ConversationInfo>
    decreases outs.len(),
{
    if outs.len() == 0 {
        Seq::empty()
    } else {
        put_by_id(by_conversation(outs.drop_last()), outs.last())
    }
}

proof fn lemma_put_by_id_skip(l: Seq<ConversationInfo>, c: ConversationInfo, p: int)
    requires
        0 <= p <= l.len(),
        forall|j: int| 0 <= j < p ==> #[trigger] l[j].conversation_id@ != c.conversation_id@ && !seq_lt(c.conversation_id@, l[j].conversation_id@),
    ensures
        put_by_id(l, c) == l.take(p) + put_by_id(l.skip(p), c),
    decreases p,
{
    if p == 0 {
        assert(l.skip(0) =~= l);
        assert(l.take(0) =~= Seq::<ConversationInfo>::empty());
    } else {
        let t = l.drop_first();
        assert forall|j: int| 0 <= j < p - 1 implies #[trigger] t[j].conversation_id@ != c.conversation_id@ && !seq_lt(c.conversation_id@, t[j].conversation_id@) by {
            assert(t[j] == l[j + 1]);
        }
        assert(l[0].conversation_id@ != c.conversation_id@ && !seq_lt(c.conversation_id@, l[0].conversation_id@));
        lemma_put_by_id_skip(t, c, p - 1);
        assert(t.skip(p - 1) =~= l.skip(p));
        assert(seq![l[0]] + t.take(p - 1) =~= l.take(p));
    }
}

/// Puts a conversation into a list kept by conversation id.
fn put_changed(changed: &mut Vec<ConversationInfo>, c: ConversationInfo)
    ensures
        final(changed)@ == put_by_id(old(changed)@, c),
{
    let ghost l = changed@;
    let mut p: usize = 0;
    while p < changed.len() && !str_eq(changed[p].conversation_id.as_str(), c.conversation_id.as_str()) && !str_before(
        c.conversation_id.as_str(),
        changed[p].conversation_id.as_str(),
    )
        invariant
            p <= changed@.len(),
            l == changed@,
            forall|j: int| 0 <= j < p ==> #[trigger] l[j].conversation_id@ != c.conversation_id@ && !seq_lt(c.conversation_id@, l[j].conversation_id@),
        decreases changed.len() - p,
    {
        p = p + 1;
    }
    proof {
        lemma_put_by_id_skip(l, c, p as int);
    }
    let ghost rest = l.skip(p as int);
    if p < changed.len() && str_eq(changed[p].conversation_id.as_str(), c.conversation_id.as_str()) {
        assert(rest[0] == l[p as int]);
        changed.set(p, c);
        assert(changed@ =~= l.take(p as int) + (seq![c] + rest.drop_first()));
    } else {
        proof {
            if p < l.len() {
                assert(rest[0] == l[p as int]);
            }
        }
        changed.insert(p, c);
        assert(changed@ =~= l.take(p as int) + (seq![c] + rest));
    }
}

/// Fails unless the message was sent by the owner.
pub open spec fn outgoing_owner_error(owner: Seq<char>, m: ChatMessage) -> Option<ErrorView> {
    if m.send_id@ == owner {
        None
    } else {
        Some(error_of(10002, "message send_id does not match login user"@))
    }
}

fn ensure_outgoing_owner(owner_user_id: &str, message: &ChatMessage) -> (r: Result<(), OpenImError>)
    ensures
        r is Ok <==> outgoing_owner_error(owner_user_id@, *message) is None,
        r matches Err(e) ==> Some(e@) == outgoing_owner_error(owner_user_id@, *message),
{
    if str_eq(message.send_id.as_str(), owner_user_id) {
        Ok(())
    } else {
        Err(OpenImError::args("message send_id does not match login user"))
    }
}

/// Whether the owner may see a message: sent or received by the owner, or
/// in a group.
pub open spec fn visible_to(owner: Seq<char>, m: ChatMessage) -> bool {
    m.send_id@ == owner || m.recv_id@ == owner || m.group_id@.len() > 0
}

/// The error for a message outside the owner's scope.
pub open spec fn outside_scope() -> ErrorView {
    error_of(10002, "message is outside login user scope"@)
}

fn ensure_message_visible_to_owner(owner_user_id: &str, message: &ChatMessage) -> (r: Result<(), OpenImError>)
    ensures
        r is Ok <==> visible_to(owner_user_id@, *message),
        r matches Err(e) ==> e@ == outside_scope(),
{
    if str_eq(message.send_id.as_str(), owner_user_id) || str_eq(message.recv_id.as_str(), owner_user_id) {
        return Ok(());
    }
    if !message.group_id.as_str().is_empty() {
        return Ok(());
    }
    Err(OpenImError::args("message is outside login user scope"))
}

fn copy_messages(v: &Vec<ChatMessage>) -> (r: Vec<ChatMessage>)
    ensures
        r@ == v@,
{
    let mut out: Vec<ChatMessage> = Vec::new();
    let mut i: usize = 0;
    while i < v.len()
        invariant
            i <= v@.len(),
            out@ == v@.take(i as int),
        decreases v.len() - i,
    {
        out.push(v[i].duplicate());
        assert(v@.take(i + 1) =~= v@.take(i as int).push(v@[i as int]));
        i = i + 1;
    }
    assert(v@.take(i as int) =~= v@);
    out
}

/// A client session: its configuration, lifecycle state, login, domain
/// services, listeners, tasks and the resources of the login.
pub struct OpenImSession {
    config: SessionConfig,
    state: SessionState,
    login_user_id: Option<String>,
    domains: DomainServices,
    listeners: ListenerRegistry,
    tasks: TaskSupervisor,
    resources: ResourceAdapter,
    runtime_resources: Option<SessionRuntimeResources>,
    operation_seq: u64,
    closes: Ghost<Seq<CloseCall>>,
}

impl OpenImSession {
    pub closed spec fn spec_config(&self) -> SessionConfig {
        self.config
    }

    pub closed spec fn spec_state(&self) -> SessionState {
        self.state
    }

    pub closed spec fn spec_login(&self) -> Option<Seq<char>> {
        match self.login_user_id {
            Some(u) => Some(u@),
            None => None,
        }
    }

    pub closed spec fn spec_domains(&self) -> DomainServices {
        self.domains
    }

    pub closed spec fn spec_ids(&self) -> Seq<ListenerId> {
        self.listeners.spec_ids()
    }

    pub closed spec fn spec_next_id(&self) -> ListenerId {
        self.listeners.spec_next_id()
    }

    /// Each emitted event with the listeners it went to.
    pub closed spec fn spec_log(&self) -> Seq<(Seq<ListenerId>, EventView)> {
        self.listeners.spec_log()
    }

    pub closed spec fn spec_tasks(&self) -> Map<Seq<char>, bool> {
        self.tasks.view()
    }

    pub closed spec fn spec_runtime(&self) -> Option<SessionRuntimeResources> {
        self.runtime_resources
    }

    /// Every call of a login resource's `close`, in order.
    pub closed spec fn spec_closes(&self) -> Seq<CloseCall> {
        self.closes@
    }

    /// Whether the session uses the adapter that opens nothing.
    pub closed spec fn spec_uses_noop(&self) -> bool {
        self.resources is Noop
    }

    /// The session with everything but the log, tasks and listeners as in
    /// `other`.
    pub open spec fn keeps_core(&self, other: &OpenImSession) -> bool {
        &&& self.spec_uses_noop() == other.spec_uses_noop()
        &&& self.spec_closes() == other.spec_closes()
        &&& self.spec_config() == other.spec_config()
        &&& self.spec_state() == other.spec_state()
        &&& self.spec_login() == other.spec_login()
        &&& self.spec_domains() == other.spec_domains()
        &&& self.spec_runtime() == other.spec_runtime()
    }

    /// The number of the last operation id handed out.
    pub closed spec fn spec_operation_seq(&self) -> u64 {
        self.operation_seq
    }

    /// Nothing observable differs.
    pub open spec fn same_as(&self, other: &OpenImSession) -> bool {
        &&& self.keeps_core(other)
        &&& self.spec_ids() == other.spec_ids()
        &&& self.spec_next_id() == other.spec_next_id()
        &&& self.spec_log() == other.spec_log()
        &&& self.spec_tasks() == other.spec_tasks()
    }

    /// A session with the adapter that opens nothing.
    pub fn new(config: SessionConfig) -> (r: Result<OpenImSession, OpenImError>)
        ensures
            r is Ok <==> config_error(config) is None,
            r matches Err(e) ==> Some(e@) == config_error(config),
            r matches Ok(s) ==> s.fresh(config) && s.spec_uses_noop(),
    {
        Self::with_adapter(config, ResourceAdapter::Noop(NoopSessionResourceAdapter))
    }

    fn with_adapter(config: SessionConfig, resources: ResourceAdapter) -> (r: Result<OpenImSession, OpenImError>)
        ensures
            r is Ok <==> config_error(config) is None,
            r matches Err(e) ==> Some(e@) == config_error(config),
            r matches Ok(s) ==> s.fresh(config) && (s.spec_uses_noop() <==> resources is Noop),
    {
        config.validate()?;
        Ok(
            OpenImSession {
                config,
                state: SessionState::Created,
                login_user_id: None,
                domains: DomainServices::new(),
                listeners: ListenerRegistry::new(),
                tasks: TaskSupervisor::new(),
                resources,
                runtime_resources: None,
                operation_seq: 0,
                closes: Ghost(Seq::empty()),
            },
        )
    }

    /// A just-created session: nothing registered, started or opened.
    pub open spec fn fresh(&self, config: SessionConfig) -> bool {
        &&& self.spec_config() == config
        &&& self.spec_state() == SessionState::Created
        &&& self.spec_login() is None
        &&& domains_empty(self.spec_domains())
        &&& self.spec_ids().len() == 0
        &&& self.spec_next_id() == 0
        &&& self.spec_log().len() == 0
        &&& self.spec_tasks() == Map::<Seq<char>, bool>::empty()
        &&& self.spec_runtime() is None
    }

    /// A session whose lifecycle boundaries go through the given adapter.
    pub fn with_resource_adapter(config: SessionConfig, resources: Box<dyn SessionResourceAdapter>) -> (r:
        Result<OpenImSession, OpenImError>)
        ensures
            r is Ok <==> config_error(config) is None,
            r matches Err(e) ==> Some(e@) == config_error(config),
            r matches Ok(s) ==> s.fresh(config) && !s.spec_uses_noop(),
    {
        Self::with_adapter(config, ResourceAdapter::Custom(resources))
    }

    fn emit(&mut self, event: SessionEvent)
        ensures
            final(self).keeps_core(&*old(self)),
            final(self).spec_tasks() == old(self).spec_tasks(),
            final(self).spec_ids() == old(self).spec_ids(),
            final(self).spec_next_id() == old(self).spec_next_id(),
            final(self).spec_log() == old(self).spec_log().push((old(self).spec_ids(), event@)),
    {
        self.listeners.emit(&event);
    }

    /// Initializes a created or uninitialized session through the adapter;
    /// any other state is left as it is.
    pub fn init(&mut self) -> (r: Result<(), OpenImError>)
        ensures
            ({
                let starting = old(self).spec_state() == SessionState::Created || old(self).spec_state()
                    == SessionState::Uninitialized;
                &&& !starting ==> r is Ok && final(self).same_as(&*old(self))
                &&& starting && old(self).spec_uses_noop() ==> r is Ok
                &&& starting && r is Err ==> final(self).same_as(&*old(self))
                &&& starting && r is Ok ==> {
                    &&& final(self).spec_state() == SessionState::Initialized
                    &&& final(self).spec_uses_noop() == old(self).spec_uses_noop()
                    &&& final(self).spec_config() == old(self).spec_config()
                    &&& final(self).spec_login() == old(self).spec_login()
                    &&& final(self).spec_domains() == old(self).spec_domains()
                    &&& final(self).spec_runtime() == old(self).spec_runtime()
                    &&& final(self).spec_tasks() == old(self).spec_tasks()
                    &&& final(self).spec_ids() == old(self).spec_ids()
                    &&& final(self).spec_next_id() == old(self).spec_next_id()
                    &&& final(self).spec_log() == old(self).spec_log().push((old(self).spec_ids(), EventView::Initialized))
                }
            }),
    {
        match self.state {
            SessionState::Created | SessionState::Uninitialized => {
                self.resources.init(&self.config)?;
                self.state = SessionState::Initialized;
                self.emit(SessionEvent::Initialized);
                Ok(())
            },
            _ => Ok(()),
        }
    }

    /// A new operation id for this session: the time and the next number.
    fn next_operation_id(&mut self) -> (r: String)
        ensures
            final(self).same_as(&*old(self)),
            final(self).spec_operation_seq() == if old(self).spec_operation_seq() < u64::MAX {
                (old(self).spec_operation_seq() + 1) as u64
            } else {
                1u64
            },
            exists|millis: u64| #[trigger] crate::protocol::operation_id_text(millis, final(self).spec_operation_seq()) == r@,
    {
        self.operation_seq = if self.operation_seq < u64::MAX {
            self.operation_seq + 1
        } else {
            1
        };
        let millis = unix_millis();
        let r = crate::protocol::operation_id_from(millis, self.operation_seq);
        assert(crate::protocol::operation_id_text(millis, self.spec_operation_seq()) == r@);
        r
    }

    /// Starts a task; tells of it if it was not running.
    pub fn start_task(&mut self, name: &str) -> (r: Result<(), OpenImError>)
        ensures
            r is Ok <==> name@.len() > 0,
            r matches Err(e) ==> e@ == error_of(10002, empty_message("task_name"@)) && final(self).same_as(&*old(self)),
            r is Ok ==> {
                &&& final(self).keeps_core(&*old(self))
                &&& final(self).spec_ids() == old(self).spec_ids()
                &&& final(self).spec_next_id() == old(self).spec_next_id()
                &&& final(self).spec_tasks() == old(self).spec_tasks().insert(name@, true)
                &&& final(self).spec_log() == old(self).spec_log() + (if runs(old(self).spec_tasks(), name@) {
                    Seq::empty()
                } else {
                    seq![(old(self).spec_ids(), EventView::TaskStarted(name@))]
                })
            },
    {
        if self.tasks.start(name)? {
            self.emit(SessionEvent::TaskStarted { name: owned(name) });
        } else {
            assert(self.spec_log() =~= old(self).spec_log() + Seq::empty());
        }
        Ok(())
    }

    /// Stops a task; tells of it if it was running.
    pub fn stop_task(&mut self, name: &str) -> (r: Result<(), OpenImError>)
        ensures
            r is Ok <==> name@.len() > 0,
            r matches Err(e) ==> e@ == error_of(10002, empty_message("task_name"@)) && final(self).same_as(&*old(self)),
            r is Ok ==> {
                &&& final(self).keeps_core(&*old(self))
                &&& final(self).spec_ids() == old(self).spec_ids()
                &&& final(self).spec_next_id() == old(self).spec_next_id()
                &&& final(self).spec_tasks() == (if runs(old(self).spec_tasks(), name@) {
                    old(self).spec_tasks().insert(name@, false)
                } else {
                    old(self).spec_tasks()
                })
                &&& final(self).spec_log() == old(self).spec_log() + (if runs(old(self).spec_tasks(), name@) {
                    seq![(old(self).spec_ids(), EventView::TaskStopped(name@))]
                } else {
                    Seq::empty()
                })
            },
    {
        if self.tasks.stop(name)? {
            self.emit(SessionEvent::TaskStopped { name: owned(name) });
        } else {
            assert(self.spec_log() =~= old(self).spec_log() + Seq::empty());
        }
        Ok(())
    }

    /// Stops every task, telling of each one that was running, by name.
    fn stop_all_tasks(&mut self)
        ensures
            final(self).keeps_core(&*old(self)),
            final(self).spec_ids() == old(self).spec_ids(),
            final(self).spec_next_id() == old(self).spec_next_id(),
            final(self).spec_tasks() == Map::<Seq<char>, bool>::empty(),
            exists|names: Seq<Seq<char>>|
                lists_running(names, old(self).spec_tasks()) && final(self).spec_log() == old(self).spec_log()
                    + emitted(old(self).spec_ids(), stopped_events(names)),
    {
        let names = self.tasks.stop_all();
        let ghost views = names@.map_values(|s: String| s@);
        let ghost start_log = self.spec_log();
        let ghost ids = self.spec_ids();
        let mut i: usize = 0;
        while i < names.len()
            invariant
                i <= names@.len(),
                views == names@.map_values(|s: String| s@),
                self.keeps_core(&*old(self)),
                self.spec_ids() == ids,
                ids == old(self).spec_ids(),
                self.spec_next_id() == old(self).spec_next_id(),
                self.spec_tasks() == Map::<Seq<char>, bool>::empty(),
                start_log == old(self).spec_log(),
                self.spec_log() == start_log + emitted(ids, stopped_events(views.take(i as int))),
            decreases names.len() - i,
        {
            let ghost before = self.spec_log();
            self.emit(SessionEvent::TaskStopped { name: names[i].clone() });
            proof {
                assert(stopped_events(views.take(i + 1)) =~= stopped_events(views.take(i as int)).push(EventView::TaskStopped(views[i as int])));
                assert(emitted(ids, stopped_events(views.take(i + 1))) =~= emitted(ids, stopped_events(views.take(i as int))).push((ids, EventView::TaskStopped(views[i as int]))));
            }
            i = i + 1;
        }
        assert(views.take(i as int) =~= views);
        assert(lists_running(views, old(self).spec_tasks()));
        assert(self.spec_log() == old(self).spec_log() + emitted(old(self).spec_ids(), stopped_events(views)));
    }

    /// Closes the login's resources, if any; on failure the resources that
    /// did not close stay.
    fn close_runtime_resources(&mut self) -> (r: Result<Vec<SessionResourceInfo>, OpenImError>)
        ensures
            final(self).spec_config() == old(self).spec_config(),
            final(self).spec_state() == old(self).spec_state(),
            final(self).spec_login() == old(self).spec_login(),
            final(self).spec_domains() == old(self).spec_domains(),
            final(self).spec_ids() == old(self).spec_ids(),
            final(self).spec_next_id() == old(self).spec_next_id(),
            final(self).spec_log() == old(self).spec_log(),
            final(self).spec_tasks() == old(self).spec_tasks(),
            old(self).spec_runtime() is None ==> (r matches Ok(c) && c@.len() == 0 && final(self).spec_runtime() is None),
            no_open_resources(old(self).spec_runtime()) ==> r is Ok,
            final(self).spec_uses_noop() == old(self).spec_uses_noop(),
            closes_recorded(old(self).spec_closes(), final(self).spec_closes(), old(self).spec_runtime()),
            r is Ok <==> first_close_error(final(self).spec_closes().skip(old(self).spec_closes().len() as int)) is None,
            r matches Err(e) ==> first_close_error(final(self).spec_closes().skip(old(self).spec_closes().len() as int))
                == Some(e),
            r matches Ok(c) ==> (info_views(c@) == closing_of(old(self).spec_runtime()) && final(self).spec_runtime() is None),
            r is Err ==> final(self).spec_runtime() is Some,
    {
        let mut runtime: Option<SessionRuntimeResources> = None;
        std::mem::swap(&mut runtime, &mut self.runtime_resources);
        match runtime {
            None => {
                let v: Vec<SessionResourceInfo> = Vec::new();
                assert(info_views(v@) =~= Seq::<(SessionResourceKind, Seq<char>)>::empty());
                assert(self.closes@.skip(self.closes@.len() as int) =~= Seq::<CloseCall>::empty());
                assert(self.closes@.take(self.closes@.len() as int) =~= self.closes@);
                Ok(v)
            },
            Some(mut rt) => {
                let ghost n_rt = rt.spec_closes().len();
                let result = rt.close_all();
                let ghost calls = rt.spec_closes().skip(n_rt as int);
                let ghost log0 = self.closes@;
                self.closes = Ghost(self.closes@ + calls);
                assert(self.closes@.skip(log0.len() as int) =~= calls);
                assert(self.closes@.take(log0.len() as int) =~= log0);
                match result {
                    Ok(closed) => Ok(closed),
                    Err(e) => {
                        self.runtime_resources = Some(rt);
                        Err(e)
                    },
                }
            },
        }
    }

    /// Tells of each closed resource, in order.
    fn emit_closed(&mut self, closed: &Vec<SessionResourceInfo>)
        ensures
            final(self).keeps_core(&*old(self)),
            final(self).spec_ids() == old(self).spec_ids(),
            final(self).spec_next_id() == old(self).spec_next_id(),
            final(self).spec_tasks() == old(self).spec_tasks(),
            final(self).spec_log() == old(self).spec_log() + emitted(old(self).spec_ids(), closed_events(info_views(closed@))),
    {
        let ghost views = info_views(closed@);
        let ghost ids = self.spec_ids();
        let mut i: usize = 0;
        while i < closed.len()
            invariant
                i <= closed@.len(),
                views == info_views(closed@),
                self.keeps_core(&*old(self)),
                self.spec_ids() == ids,
                ids == old(self).spec_ids(),
                self.spec_next_id() == old(self).spec_next_id(),
                self.spec_tasks() == old(self).spec_tasks(),
                self.spec_log() == old(self).spec_log() + emitted(ids, closed_events(views.take(i as int))),
            decreases closed.len() - i,
        {
            self.emit(SessionEvent::ResourceClosed { kind: closed[i].kind, name: closed[i].name.clone() });
            proof {
                assert(closed_events(views.take(i + 1)) =~= closed_events(views.take(i as int)).push(EventView::ResourceClosed(views[i as int].0, views[i as int].1)));
                assert(emitted(ids, closed_events(views.take(i + 1))) =~= emitted(ids, closed_events(views.take(i as int))).push((ids, EventView::ResourceClosed(views[i as int].0, views[i as int].1))));
            }
            i = i + 1;
        }
        assert(views.take(i as int) =~= views);
    }

    /// Tells of each opened resource, in order.
    fn emit_opened(&mut self, opened: &Vec<SessionResourceInfo>)
        ensures
            final(self).keeps_core(&*old(self)),
            final(self).spec_ids() == old(self).spec_ids(),
            final(self).spec_next_id() == old(self).spec_next_id(),
            final(self).spec_tasks() == old(self).spec_tasks(),
            final(self).spec_log() == old(self).spec_log() + emitted(old(self).spec_ids(), opened_events(info_views(opened@))),
    {
        let ghost views = info_views(opened@);
        let ghost ids = self.spec_ids();
        let mut i: usize = 0;
        while i < opened.len()
            invariant
                i <= opened@.len(),
                views == info_views(opened@),
                self.keeps_core(&*old(self)),
                self.spec_ids() == ids,
                ids == old(self).spec_ids(),
                self.spec_next_id() == old(self).spec_next_id(),
                self.spec_tasks() == old(self).spec_tasks(),
                self.spec_log() == old(self).spec_log() + emitted(ids, opened_events(views.take(i as int))),
            decreases opened.len() - i,
        {
            self.emit(SessionEvent::ResourceOpened { kind: opened[i].kind, name: opened[i].name.clone() });
            proof {
                assert(opened_events(views.take(i + 1)) =~= opened_events(views.take(i as int)).push(EventView::ResourceOpened(views[i as int].0, views[i as int].1)));
                assert(emitted(ids, opened_events(views.take(i + 1))) =~= emitted(ids, opened_events(views.take(i as int))).push((ids, EventView::ResourceOpened(views[i as int].0, views[i as int].1))));
            }
            i = i + 1;
        }
        assert(views.take(i as int) =~= views);
    }
}

impl OpenImSession {
    /// Logs a user in: checks the credentials and the state, asks the
    /// adapter for the login's resources (which must match the login),
    /// starts the transport and sync tasks, and tells of each opened
    /// resource and of the login.
    pub fn login(&mut self, credentials: LoginCredentials) -> (r: Result<(), OpenImError>)
        ensures
            login_error(old(self).spec_state(), credentials) matches Some(e) ==> (r matches Err(x) && x@ == e
                && final(self).same_as(&*old(self))),
            login_error(old(self).spec_state(), credentials) is None && r is Err ==> final(self).same_as(&*old(self)),
            login_error(old(self).spec_state(), credentials) is None && old(self).spec_uses_noop() ==> r is Ok,
            r is Ok ==> {
                &&& login_error(old(self).spec_state(), credentials) is None
                &&& final(self).spec_uses_noop() == old(self).spec_uses_noop()
                &&& old(self).spec_uses_noop() ==> (final(self).spec_runtime() matches Some(rt) && rt.spec_infos().len() == 0)
                &&& final(self).spec_state() == SessionState::LoggedIn
                &&& final(self).spec_config() == old(self).spec_config()
                &&& final(self).spec_login() == Some(credentials.user_id@)
                &&& domains_empty(final(self).spec_domains())
                &&& final(self).spec_ids() == old(self).spec_ids()
                &&& final(self).spec_next_id() == old(self).spec_next_id()
                &&& final(self).spec_tasks() == old(self).spec_tasks().insert("transport"@, true).insert("sync"@, true)
                &&& final(self).spec_runtime() matches Some(rt) && {
                    &&& rt.spec_user_id() == credentials.user_id@
                    &&& storage_target_of(old(self).spec_config(), credentials.user_id@, rt.spec_storage())
                    &&& rt.spec_transport().ws_addr@ == old(self).spec_config().ws_addr@
                    &&& rt.spec_transport().user_id@ == credentials.user_id@
                    &&& rt.spec_transport().token@ == credentials.token@
                    &&& rt.spec_transport().platform_id == old(self).spec_config().platform.spec_id()
                    &&& rt.spec_transport().sdk_type@ == "js"@
                    &&& rt.spec_transport().sdk_version@ == "rust-phase1-poc"@
                    &&& !rt.spec_transport().is_background
                    &&& rt.spec_transport().compression
                    &&& rt.spec_transport().send_response
                    &&& final(self).spec_log() == old(self).spec_log() + emitted(
                        old(self).spec_ids(),
                        login_task_events(old(self).spec_tasks()) + opened_events(rt.spec_infos())
                            + seq![EventView::LoggedIn(credentials.user_id@)],
                    )
                }
            },
    {
        credentials.validate()?;
        match self.state {
            SessionState::Initialized | SessionState::LoggedOut => {},
            SessionState::LoggedIn => {
                return Err(OpenImError::args("session already logged in"));
            },
            SessionState::Created | SessionState::Uninitialized => {
                return Err(OpenImError::args("session is not initialized"));
            },
        }
        let operation_id = self.next_operation_id();
        let transport = self.config.transport_config(&credentials, operation_id.as_str())?;
        let storage = self.config.storage_target(credentials.user_id.as_str())?;
        let runtime = self.resources.login(&self.config, &credentials, &transport, &storage)?;
        runtime.ensure_matches(&credentials, &transport, &storage)?;
        let opened = runtime.resource_infos();
        let ghost infos = runtime.spec_infos();
        let ghost start_log = self.spec_log();
        let ghost start_tasks = self.spec_tasks();
        self.login_user_id = Some(credentials.user_id.clone());
        self.runtime_resources = Some(runtime);
        self.domains = DomainServices::new();
        self.state = SessionState::LoggedIn;
        proof {
            reveal_strlit("transport");
            reveal_strlit("sync");
        }
        self.start_task(TRANSPORT_TASK)?;
        self.start_task(SYNC_TASK)?;
        let ghost after_tasks = self.spec_log();
        proof {
            assert("transport"@ != "sync"@) by {
                assert("transport"@.len() != "sync"@.len());
            }
            let m1 = start_tasks.insert("transport"@, true);
            assert(runs(m1, "sync"@) == runs(start_tasks, "sync"@));
            let a: Seq<(Seq<ListenerId>, EventView)> = if runs(start_tasks, "transport"@) {
                Seq::empty()
            } else {
                seq![(old(self).spec_ids(), EventView::TaskStarted("transport"@))]
            };
            let b: Seq<(Seq<ListenerId>, EventView)> = if runs(start_tasks, "sync"@) {
                Seq::empty()
            } else {
                seq![(old(self).spec_ids(), EventView::TaskStarted("sync"@))]
            };
            assert(after_tasks == start_log + a + b);
            assert(a + b =~= emitted(old(self).spec_ids(), login_task_events(start_tasks)));
        }
        self.emit_opened(&opened);
        self.emit(SessionEvent::LoggedIn { user_id: credentials.user_id });
        proof {
            let ids = old(self).spec_ids();
            assert(emitted(ids, login_task_events(start_tasks) + opened_events(infos) + seq![EventView::LoggedIn(credentials.user_id@)])
                =~= emitted(ids, login_task_events(start_tasks)) + emitted(ids, opened_events(infos)) + seq![(ids, EventView::LoggedIn(credentials.user_id@))]);
        }
        Ok(())
    }

    /// Logs the user out: tells the adapter, closes the login's resources,
    /// stops every task, clears the domain services, and tells of each
    /// stopped task, each closed resource and the logout. Without a login
    /// nothing happens.
    pub fn logout(&mut self) -> (r: Result<(), OpenImError>)
        ensures
            old(self).spec_login() is None ==> r is Ok && final(self).same_as(&*old(self)),
            old(self).spec_uses_noop() && no_open_resources(old(self).spec_runtime()) ==> r is Ok,
            final(self).spec_uses_noop() == old(self).spec_uses_noop(),
            old(self).spec_login() is Some ==> (final(self).spec_closes() == old(self).spec_closes() && r is Err) || (closes_recorded(
                old(self).spec_closes(),
                final(self).spec_closes(),
                old(self).spec_runtime(),
            ) && (r is Ok <==> first_close_error(final(self).spec_closes().skip(old(self).spec_closes().len() as int)) is None)
                && (r matches Err(e) ==> first_close_error(final(self).spec_closes().skip(old(self).spec_closes().len() as int))
                == Some(e))),
            old(self).spec_login() is Some && r is Err ==> {
                &&& final(self).spec_config() == old(self).spec_config()
                &&& final(self).spec_state() == old(self).spec_state()
                &&& final(self).spec_login() == old(self).spec_login()
                &&& final(self).spec_domains() == old(self).spec_domains()
                &&& final(self).spec_ids() == old(self).spec_ids()
                &&& final(self).spec_log() == old(self).spec_log()
                &&& final(self).spec_tasks() == old(self).spec_tasks()
            },
            old(self).spec_login() is Some && r is Ok ==> {
                &&& final(self).spec_state() == SessionState::LoggedOut
                &&& final(self).spec_config() == old(self).spec_config()
                &&& final(self).spec_login() is None
                &&& domains_empty(final(self).spec_domains())
                &&& final(self).spec_runtime() is None
                &&& final(self).spec_tasks() == Map::<Seq<char>, bool>::empty()
                &&& final(self).spec_ids() == old(self).spec_ids()
                &&& final(self).spec_next_id() == old(self).spec_next_id()
                &&& exists|names: Seq<Seq<char>>| lists_running(names, old(self).spec_tasks()) && final(self).spec_log()
                    == old(self).spec_log() + emitted(
                    old(self).spec_ids(),
                    stopped_events(names) + closed_events(closing_of(old(self).spec_runtime()))
                        + seq![EventView::LoggedOut(old(self).spec_login()->Some_0)],
                )
            },
    {
        let user_id = match &self.login_user_id {
            None => {
                return Ok(());
            },
            Some(u) => u.clone(),
        };
        self.resources.logout(user_id.as_str())?;
        let closed = self.close_runtime_resources()?;
        let ghost log0 = self.spec_log();
        let ghost ids = self.spec_ids();
        self.stop_all_tasks();
        let ghost names = choose|names: Seq<Seq<char>>| lists_running(names, old(self).spec_tasks()) && self.spec_log()
            == log0 + emitted(ids, stopped_events(names));
        self.login_user_id = None;
        self.domains = DomainServices::new();
        self.state = SessionState::LoggedOut;
        self.emit_closed(&closed);
        self.emit(SessionEvent::LoggedOut { user_id });
        proof {
            let closing = closing_of(old(self).spec_runtime());
            assert(emitted(ids, stopped_events(names) + closed_events(closing) + seq![EventView::LoggedOut(user_id@)])
                =~= emitted(ids, stopped_events(names)) + emitted(ids, closed_events(closing)) + seq![(ids, EventView::LoggedOut(user_id@))]);
            assert(lists_running(names, old(self).spec_tasks()));
        }
        Ok(())
    }

    /// Uninitializes the session: tells the adapter, closes the login's
    /// resources, stops every task, clears the login and domain services,
    /// and tells of each stopped task, each closed resource and the end.
    pub fn uninit(&mut self) -> (r: Result<(), OpenImError>)
        ensures
            old(self).spec_uses_noop() && no_open_resources(old(self).spec_runtime()) ==> r is Ok,
            final(self).spec_uses_noop() == old(self).spec_uses_noop(),
            (final(self).spec_closes() == old(self).spec_closes() && r is Err) || (closes_recorded(
                old(self).spec_closes(),
                final(self).spec_closes(),
                old(self).spec_runtime(),
            ) && (r is Ok <==> first_close_error(final(self).spec_closes().skip(old(self).spec_closes().len() as int)) is None)
                && (r matches Err(e) ==> first_close_error(final(self).spec_closes().skip(old(self).spec_closes().len() as int))
                == Some(e))),
            r is Err ==> {
                &&& final(self).spec_config() == old(self).spec_config()
                &&& final(self).spec_state() == old(self).spec_state()
                &&& final(self).spec_login() == old(self).spec_login()
                &&& final(self).spec_domains() == old(self).spec_domains()
                &&& final(self).spec_ids() == old(self).spec_ids()
                &&& final(self).spec_log() == old(self).spec_log()
                &&& final(self).spec_tasks() == old(self).spec_tasks()
            },
            r is Ok ==> {
                &&& final(self).spec_state() == SessionState::Uninitialized
                &&& final(self).spec_config() == old(self).spec_config()
                &&& final(self).spec_login() is None
                &&& domains_empty(final(self).spec_domains())
                &&& final(self).spec_runtime() is None
                &&& final(self).spec_tasks() == Map::<Seq<char>, bool>::empty()
                &&& final(self).spec_ids() == old(self).spec_ids()
                &&& final(self).spec_next_id() == old(self).spec_next_id()
                &&& exists|names: Seq<Seq<char>>| lists_running(names, old(self).spec_tasks()) && final(self).spec_log()
                    == old(self).spec_log() + emitted(
                    old(self).spec_ids(),
                    stopped_events(names) + closed_events(closing_of(old(self).spec_runtime()))
                        + seq![EventView::Uninitialized],
                )
            },
    {
        self.resources.uninit()?;
        let closed = self.close_runtime_resources()?;
        let ghost log0 = self.spec_log();
        let ghost ids = self.spec_ids();
        self.stop_all_tasks();
        let ghost names = choose|names: Seq<Seq<char>>| lists_running(names, old(self).spec_tasks()) && self.spec_log()
            == log0 + emitted(ids, stopped_events(names));
        self.login_user_id = None;
        self.domains = DomainServices::new();
        self.state = SessionState::Uninitialized;
        self.emit_closed(&closed);
        self.emit(SessionEvent::Uninitialized);
        proof {
            let closing = closing_of(old(self).spec_runtime());
            assert(emitted(ids, stopped_events(names) + closed_events(closing) + seq![EventView::Uninitialized])
                =~= emitted(ids, stopped_events(names)) + emitted(ids, closed_events(closing)) + seq![(ids, EventView::Uninitialized)]);
            assert(lists_running(names, old(self).spec_tasks()));
        }
        Ok(())
    }

    /// Registers a listener and tells every listener, the new one included.
    pub fn register_listener<F>(&mut self, callback: F) -> (r: ListenerId)
        where
            F: Fn(&SessionEvent) + Send + Sync + 'static,
        requires
            old(self).spec_next_id() < u64::MAX,
        ensures
            final(self).keeps_core(&*old(self)),
            final(self).spec_tasks() == old(self).spec_tasks(),
            r == old(self).spec_next_id() + 1,
            final(self).spec_next_id() == r,
            final(self).spec_ids() == old(self).spec_ids().push(r),
            final(self).spec_log() == old(self).spec_log().push((old(self).spec_ids().push(r), EventView::ListenerRegistered(r))),
    {
        let listener_id = self.listeners.register(callback);
        self.emit(SessionEvent::ListenerRegistered { listener_id });
        listener_id
    }

    /// Removes a listener; if it was registered, tells the remaining ones.
    pub fn unregister_listener(&mut self, listener_id: ListenerId) -> (r: bool)
        ensures
            final(self).keeps_core(&*old(self)),
            final(self).spec_tasks() == old(self).spec_tasks(),
            final(self).spec_next_id() == old(self).spec_next_id(),
            r == old(self).spec_ids().contains(listener_id),
            !r ==> final(self).same_as(&*old(self)),
            r ==> exists|i: int| 0 <= i < old(self).spec_ids().len() && old(self).spec_ids()[i] == listener_id
                && final(self).spec_ids() == old(self).spec_ids().remove(i),
            r ==> final(self).spec_log() == old(self).spec_log().push((final(self).spec_ids(), EventView::ListenerUnregistered(listener_id))),
            !final(self).spec_ids().contains(listener_id),
    {
        let removed = self.listeners.unregister(listener_id);
        if removed {
            self.emit(SessionEvent::ListenerUnregistered { listener_id });
        }
        removed
    }

    /// Fails unless the session is logged in.
    fn ensure_logged_in(&self) -> (r: Result<(), OpenImError>)
        ensures
            r is Ok <==> self.spec_state() == SessionState::LoggedIn,
            r matches Err(e) ==> e@ == not_logged_in(),
    {
        if self.state != SessionState::LoggedIn {
            return Err(OpenImError::args("session is not logged in"));
        }
        Ok(())
    }

    /// The logged-in user.
    fn logged_in_user_id(&self) -> (r: Result<String, OpenImError>)
        ensures
            r is Ok <==> self.spec_state() == SessionState::LoggedIn && self.spec_login() is Some,
            self.spec_state() != SessionState::LoggedIn ==> (r matches Err(e) && e@ == not_logged_in()),
            r matches Ok(u) ==> self.spec_login() == Some(u@),
    {
        self.ensure_logged_in()?;
        match &self.login_user_id {
            Some(u) => Ok(u.clone()),
            None => Err(OpenImError::sdk_internal("login user missing")),
        }
    }

    /// Tells of new messages, when there are any; needs a login.
    pub fn dispatch_new_messages(&mut self, messages: Vec<ChatMessage>) -> (r: Result<(), OpenImError>)
        ensures
            r is Ok <==> old(self).spec_state() == SessionState::LoggedIn,
            r matches Err(e) ==> e@ == not_logged_in(),
            final(self).keeps_core(&*old(self)),
            final(self).spec_tasks() == old(self).spec_tasks(),
            final(self).spec_ids() == old(self).spec_ids(),
            final(self).spec_next_id() == old(self).spec_next_id(),
            final(self).spec_log() == (if r is Ok && messages@.len() > 0 {
                old(self).spec_log().push((old(self).spec_ids(), EventView::NewMessages(messages@)))
            } else {
                old(self).spec_log()
            }),
    {
        self.ensure_logged_in()?;
        if messages.len() > 0 {
            self.emit(SessionEvent::NewMessages { messages });
        }
        Ok(())
    }

    /// Tells of changed conversations, when there are any; needs a login.
    pub fn dispatch_conversation_changed(&mut self, conversations: Vec<ConversationInfo>) -> (r: Result<
        (),
        OpenImError,
    >)
        ensures
            r is Ok <==> old(self).spec_state() == SessionState::LoggedIn,
            r matches Err(e) ==> e@ == not_logged_in(),
            final(self).keeps_core(&*old(self)),
            final(self).spec_tasks() == old(self).spec_tasks(),
            final(self).spec_ids() == old(self).spec_ids(),
            final(self).spec_next_id() == old(self).spec_next_id(),
            final(self).spec_log() == (if r is Ok && conversations@.len() > 0 {
                old(self).spec_log().push((old(self).spec_ids(), EventView::ConversationChanged(conversations@)))
            } else {
                old(self).spec_log()
            }),
    {
        self.ensure_logged_in()?;
        if conversations.len() > 0 {
            self.emit(SessionEvent::ConversationChanged { conversations });
        }
        Ok(())
    }

    pub fn state(&self) -> (r: SessionState)
        ensures
            r == self.spec_state(),
    {
        self.state
    }

    pub fn config(&self) -> (r: &SessionConfig)
        ensures
            *r == self.spec_config(),
    {
        &self.config
    }

    pub fn login_user_id(&self) -> (r: Option<&str>)
        ensures
            match r {
                Some(u) => self.spec_login() == Some(u@),
                None => self.spec_login() is None,
            },
    {
        match &self.login_user_id {
            Some(u) => Some(u.as_str()),
            None => None,
        }
    }

    pub fn domains(&self) -> (r: &DomainServices)
        ensures
            *r == self.spec_domains(),
    {
        &self.domains
    }

    pub fn listener_count(&self) -> (r: usize)
        ensures
            r == self.spec_ids().len(),
    {
        self.listeners.len()
    }

    pub fn tasks(&self) -> (r: Vec<TaskInfo>)
        ensures
            lists_tasks(r@, self.spec_tasks()),
    {
        self.tasks.tasks()
    }

    pub fn is_task_running(&self, name: &str) -> (r: bool)
        ensures
            r == runs(self.spec_tasks(), name@),
    {
        self.tasks.is_running(name)
    }

    pub fn runtime_resources(&self) -> (r: Option<&SessionRuntimeResources>)
        ensures
            match r {
                Some(rt) => self.spec_runtime() == Some(*rt),
                None => self.spec_runtime() is None,
            },
    {
        match &self.runtime_resources {
            Some(rt) => Some(rt),
            None => None,
        }
    }
}

/// The messages stored one after the other, each under its key.
pub open spec fn stored_all(m: Map<Key, ChatMessage>, s: Seq<ChatMessage>) -> Map<Key, ChatMessage>
    decreases s.len(),
{
    if s.len() == 0 {
        m
    } else {
        stored_all(m, s.drop_last()).insert(s.last().spec_key(), s.last())
    }
}

/// The other services are as they were.
pub open spec fn others_kept(a: DomainServices, b: DomainServices) -> bool {
    &&& a.users == b.users
    &&& a.relations == b.relations
    &&& a.groups == b.groups
}

impl OpenImSession {
    /// The domain services, to change; needs a login.
    pub fn domains_mut(&mut self) -> (r: Result<&mut DomainServices, OpenImError>)
        ensures
            r is Ok <==> old(self).spec_state() == SessionState::LoggedIn,
            r matches Err(e) ==> e@ == not_logged_in() && final(self).same_as(&*old(self)),
            final(self).same_as_but_domains(&*old(self)),
            r matches Ok(d) ==> *d == old(self).spec_domains() && final(self).spec_domains() == *final(d),
    {
        self.ensure_logged_in()?;
        Ok(&mut self.domains)
    }

    /// Advances the owner's conversation of each message in order; returns
    /// the changed conversations, the last state of each, by id.
    fn apply_messages_to_conversations(&mut self, owner_user_id: &str, messages: &Vec<ChatMessage>) -> (r: Result<
        Vec<ConversationInfo>,
        OpenImError,
    >)
        ensures
            final(self).same_as_but_domains(&*old(self)),
            others_kept(final(self).spec_domains(), old(self).spec_domains()),
            final(self).spec_domains().messages == old(self).spec_domains().messages,
            r is Ok <==> first_apply_error(
                old(self).spec_domains().conversations.view(),
                owner_user_id@,
                messages@,
                messages@.len() as int,
            ) is None,
            r matches Err(e) ==> Some(e@) == first_apply_error(
                old(self).spec_domains().conversations.view(),
                owner_user_id@,
                messages@,
                messages@.len() as int,
            ),
            r matches Ok(changed) ==> exists|outs: Seq<ConversationInfo>| applied_all(
                old(self).spec_domains().conversations.view(),
                owner_user_id@,
                messages@,
                outs,
                final(self).spec_domains().conversations.view(),
            ) && changed@ == by_conversation(outs),
    {
        let ghost m0 = self.domains.conversations.view();
        let mut changed: Vec<ConversationInfo> = Vec::new();
        let ghost mut outs: Seq<ConversationInfo> = Seq::empty();
        let mut i: usize = 0;
        assert(messages@.take(0) =~= Seq::<ChatMessage>::empty());
        while i < messages.len()
            invariant
                i <= messages@.len(),
                self.same_as_but_domains(&*old(self)),
                others_kept(self.spec_domains(), old(self).spec_domains()),
                self.spec_domains().messages == old(self).spec_domains().messages,
                m0 == old(self).spec_domains().conversations.view(),
                applied_all(m0, owner_user_id@, messages@.take(i as int), outs, self.domains.conversations.view()),
                outs.len() == i,
                changed@ == by_conversation(outs),
                first_apply_error(m0, owner_user_id@, messages@, i as int) is None,
                forall|cid: Seq<char>| #[trigger] self.domains.conversations.view().contains_key((owner_user_id@, cid))
                    == (m0.contains_key((owner_user_id@, cid)) || seen_before(messages@, i as int, cid)),
            decreases messages.len() - i,
        {
            let ghost mid = self.domains.conversations.view();
            let ghost cid_i = messages@[i as int].conversation_id@;
            assert(mid.contains_key((owner_user_id@, cid_i)) == (m0.contains_key((owner_user_id@, cid_i))
                || seen_before(messages@, i as int, cid_i)));
            let applied = self.domains.conversations.apply_message(owner_user_id, &messages[i]);
            let c = match applied {
                Ok(c) => c,
                Err(e) => {
                    proof {
                        assert(first_apply_error(m0, owner_user_id@, messages@, i + 1) == Some(e@));
                        lemma_first_apply_error_stays(m0, owner_user_id@, messages@, i + 1, messages@.len() as int);
                    }
                    return Err(e);
                },
            };
            proof {
                assert(first_apply_error(m0, owner_user_id@, messages@, i + 1) is None);
                assert forall|cid: Seq<char>| #[trigger] self.domains.conversations.view().contains_key((owner_user_id@, cid))
                    == (m0.contains_key((owner_user_id@, cid)) || seen_before(messages@, i + 1, cid)) by {
                    assert(mid.contains_key((owner_user_id@, cid)) == (m0.contains_key((owner_user_id@, cid))
                        || seen_before(messages@, i as int, cid)));
                    if seen_before(messages@, i + 1, cid) && !seen_before(messages@, i as int, cid) {
                        let j = choose|j: int| 0 <= j < i + 1 && #[trigger] messages@[j].conversation_id@ == cid;
                        assert(j == i);
                    }
                    if seen_before(messages@, i as int, cid) {
                        let j = choose|j: int| 0 <= j < i && #[trigger] messages@[j].conversation_id@ == cid;
                        assert(0 <= j < i + 1 && messages@[j].conversation_id@ == cid);
                    }
                    if cid == cid_i {
                        assert(0 <= i < i + 1 && messages@[i as int].conversation_id@ == cid);
                    }
                }
            }
            proof {
                let msgs = messages@.take(i + 1);
                assert(msgs.drop_last() =~= messages@.take(i as int));
                assert(msgs.last() == messages@[i as int]);
                assert(applied_one(mid, owner_user_id@, messages@[i as int], c, self.domains.conversations.view()));
                let outs2 = outs.push(c);
                assert(outs2.drop_last() =~= outs);
                assert(outs2.last() == c);
                assert(applied_all(m0, owner_user_id@, msgs.drop_last(), outs2.drop_last(), mid));
                assert(applied_one(mid, owner_user_id@, msgs.last(), outs2.last(), self.domains.conversations.view()));
                assert(applied_all(m0, owner_user_id@, msgs, outs2, self.domains.conversations.view()));
                outs = outs2;
            }
            put_changed(&mut changed, c.duplicate());
            assert(by_conversation(outs) == put_by_id(by_conversation(outs.drop_last()), c)) by {
                assert(outs.drop_last().push(c) =~= outs);
            }
            i = i + 1;
        }
        assert(messages@.take(i as int) =~= messages@);
        Ok(changed)
    }

    /// The session as it was, but for the domain services.
    pub open spec fn same_as_but_domains(&self, other: &OpenImSession) -> bool {
        &&& self.spec_uses_noop() == other.spec_uses_noop()
        &&& self.spec_closes() == other.spec_closes()
        &&& self.spec_config() == other.spec_config()
        &&& self.spec_state() == other.spec_state()
        &&& self.spec_login() == other.spec_login()
        &&& self.spec_runtime() == other.spec_runtime()
        &&& self.spec_ids() == other.spec_ids()
        &&& self.spec_next_id() == other.spec_next_id()
        &&& self.spec_log() == other.spec_log()
        &&& self.spec_tasks() == other.spec_tasks()
    }

    /// Sends a message of the logged-in user through the sender and
    /// advances its conversation; tells of the changed conversation.
    pub fn send_message<S: MessageSender + ?Sized>(&mut self, message: ChatMessage, sender: &mut S) -> (r: Result<
        ChatMessage,
        OpenImError,
    >)
        ensures
            old(self).spec_state() != SessionState::LoggedIn ==> (r matches Err(e) && e@ == not_logged_in()
                && final(self).same_as(&*old(self))),
            old(self).spec_state() == SessionState::LoggedIn ==> (old(self).spec_login() matches Some(owner)
                ==> (outgoing_owner_error(owner, message) matches Some(x) ==> (r matches Err(e) && e@ == x
                && final(self).same_as(&*old(self))))),
            final(self).spec_config() == old(self).spec_config(),
            final(self).spec_state() == old(self).spec_state(),
            final(self).spec_login() == old(self).spec_login(),
            final(self).spec_runtime() == old(self).spec_runtime(),
            final(self).spec_ids() == old(self).spec_ids(),
            final(self).spec_next_id() == old(self).spec_next_id(),
            final(self).spec_tasks() == old(self).spec_tasks(),
            others_kept(final(self).spec_domains(), old(self).spec_domains()),
            old(self).spec_state() == SessionState::LoggedIn ==> (old(self).spec_login() matches Some(owner)
                && outgoing_owner_error(owner, message) is None ==> {
                &&& message_error(message) is Some ==> (r matches Err(e) && Some(e@) == message_error(message)
                    && final(self).spec_domains().messages.view() == old(self).spec_domains().messages.view()
                    && final(self).spec_log() == old(self).spec_log())
                &&& message_error(message) is None ==> exists|outcome: Result<SendMessageAck, OpenImError>, sent: Result<ChatMessage, OpenImError>|
                    #[trigger] send_recorded(
                        old(self).spec_domains().messages.view().insert(message.spec_key(), prepared_outgoing(message)),
                        message.spec_key(),
                        outcome,
                        sent,
                        final(self).spec_domains().messages.view(),
                    ) && (sent is Err ==> r == sent) && (r is Ok ==> r == sent)
            }),
            r matches Ok(sent) ==> {
                let prepared = ChatMessage { status: MessageStatus::Sending, is_read: true, ..message };
                &&& old(self).spec_login() matches Some(owner) && outgoing_owner_error(owner, message) is None
                &&& exists|ack: SendMessageAck| ack.server_msg_id@.len() > 0 && sent == acked(prepared, ack)
                &&& final(self).spec_domains().messages.view() == old(self).spec_domains().messages.view().insert(message.spec_key(), sent)
                &&& exists|c: ConversationInfo| applied_one(
                    old(self).spec_domains().conversations.view(),
                    old(self).spec_login()->Some_0,
                    sent,
                    c,
                    final(self).spec_domains().conversations.view(),
                ) && final(self).spec_log() == old(self).spec_log().push(
                    (old(self).spec_ids(), EventView::ConversationChanged(seq![c])),
                )
            },
    {
        let owner_user_id = self.logged_in_user_id()?;
        ensure_outgoing_owner(owner_user_id.as_str(), &message)?;
        let ghost stored0 = self.spec_domains().messages.view();
        let ghost m = message;
        let answer = self.domains.messages.send_message(message, sender);
        let ghost dr = answer;
        let ghost stored1 = self.spec_domains().messages.view();
        proof {
            if message_error(m) is None {
                let start = stored0.insert(m.spec_key(), prepared_outgoing(m));
                let outcome = choose|o: Result<SendMessageAck, OpenImError>| send_recorded(start, m.spec_key(), o, dr, stored1);
                assert(send_recorded(start, m.spec_key(), outcome, dr, stored1));
            }
        }
        let sent = match answer {
            Ok(sent) => sent,
            Err(e) => {
                return Err(e);
            },
        };
        let one = vec![sent.duplicate()];
        let conversations = self.apply_messages_to_conversations(owner_user_id.as_str(), &one)?;
        proof {
            let outs = choose|outs: Seq<ConversationInfo>| applied_all(
                old(self).spec_domains().conversations.view(),
                owner_user_id@,
                one@,
                outs,
                self.spec_domains().conversations.view(),
            ) && conversations@ == by_conversation(outs);
            assert(one@.drop_last() =~= Seq::<ChatMessage>::empty());
            assert(outs.len() == 1);
            assert(outs.drop_last() =~= Seq::<ConversationInfo>::empty());
            let mid = choose|mid: Map<Key, ConversationInfo>| applied_all(
                old(self).spec_domains().conversations.view(),
                owner_user_id@,
                one@.drop_last(),
                outs.drop_last(),
                mid,
            ) && applied_one(mid, owner_user_id@, one@.last(), outs.last(), self.spec_domains().conversations.view());
            assert(by_conversation(outs.drop_last()) == Seq::<ConversationInfo>::empty());
            assert(put_by_id(Seq::<ConversationInfo>::empty(), outs.last()) == seq![outs.last()]);
            assert(by_conversation(outs) =~= seq![outs[0]]);
            assert(applied_one(old(self).spec_domains().conversations.view(), owner_user_id@, sent, outs[0], self.spec_domains().conversations.view()));
        }
        self.dispatch_conversation_changed(conversations)?;
        Ok(sent)
    }

    /// Pulls a conversation's messages through the transport, then merges
    /// the answer with `merge_pulled_messages`.
    pub fn pull_messages<T: SessionMessageTransport + ?Sized>(&mut self, conversation_id: &str, transport: &mut T) -> (r:
        Result<Vec<ChatMessage>, OpenImError>)
        ensures
            exists|answer: Result<Vec<ChatMessage>, OpenImError>| #[trigger] pull_merged(
                *old(self),
                conversation_id@,
                answer,
                r,
                *final(self),
            ),
    {
        let owner_user_id = match self.logged_in_user_id() {
            Ok(u) => u,
            Err(e) => {
                assert(pull_merged(*old(self), conversation_id@, Err::<Vec<ChatMessage>, OpenImError>(e), Err(e), *self));
                return Err(e);
            },
        };
        if let Err(e) = ensure_not_empty(conversation_id, "conversation_id") {
            assert(pull_merged(*old(self), conversation_id@, Err::<Vec<ChatMessage>, OpenImError>(e), Err(e), *self));
            return Err(e);
        }
        let answer = transport.pull_messages(owner_user_id.as_str(), conversation_id);
        let ghost a = answer;
        let r = self.merge_pulled_messages(conversation_id, answer);
        assert(pull_merged(*old(self), conversation_id@, a, r, *self));
        r
    }

    /// Merges a transport's answer to a pull of a conversation: checks that
    /// each message is the owner's to see, merges them into the store,
    /// advances their conversations, and tells of the new messages and the
    /// changed conversations.
    pub fn merge_pulled_messages(&mut self, conversation_id: &str, pulled: Result<Vec<ChatMessage>, OpenImError>) -> (r:
        Result<Vec<ChatMessage>, OpenImError>)
        ensures
            pull_merged(*old(self), conversation_id@, pulled, r, *final(self)),
    {
        let owner_user_id = self.logged_in_user_id()?;
        ensure_not_empty(conversation_id, "conversation_id")?;
        let messages = match pulled {
            Ok(m) => m,
            Err(e) => {
                return Err(e);
            },
        };
        if messages.len() == 0 {
            return Ok(messages);
        }
        let mut i: usize = 0;
        while i < messages.len()
            invariant
                i <= messages@.len(),
                self.same_as(&*old(self)),
                old(self).spec_state() == SessionState::LoggedIn,
                conversation_id@.len() > 0,
                pulled == Ok::<Vec<ChatMessage>, OpenImError>(messages),
                messages@.len() > 0,
                forall|j: int| 0 <= j < i ==> visible_to(owner_user_id@, #[trigger] messages@[j]),
            decreases messages.len() - i,
        {
            ensure_message_visible_to_owner(owner_user_id.as_str(), &messages[i])?;
            i = i + 1;
        }
        let copied = copy_messages(&messages);
        self.domains.messages.sync_message_range(conversation_id, copied)?;
        let ghost synced = self.domains.messages.view();
        let conversations = self.apply_messages_to_conversations(owner_user_id.as_str(), &messages)?;
        let ghost outs = choose|outs: Seq<ConversationInfo>| applied_all(
            old(self).spec_domains().conversations.view(),
            owner_user_id@,
            messages@,
            outs,
            self.spec_domains().conversations.view(),
        ) && conversations@ == by_conversation(outs);
        self.dispatch_new_messages(copy_messages(&messages))?;
        proof {
            lemma_by_conversation_nonempty(outs);
            assert(outs.len() == messages@.len());
        }
        self.dispatch_conversation_changed(conversations)?;
        proof {
            assert(self.spec_log() =~= old(self).spec_log() + seq![
                (old(self).spec_ids(), EventView::NewMessages(messages@)),
                (old(self).spec_ids(), EventView::ConversationChanged(by_conversation(outs))),
            ]);
            assert(self.spec_domains().messages.view() == synced);
            assert(applied_all(
                old(self).spec_domains().conversations.view(),
                owner_user_id@,
                messages@,
                outs,
                self.spec_domains().conversations.view(),
            ));
            assert(old(self).spec_login()->Some_0 == owner_user_id@);
            assert(applied_all(
                old(self).spec_domains().conversations.view(),
                old(self).spec_login()->Some_0,
                messages@,
                outs,
                self.spec_domains().conversations.view(),
            ));
            assert(exists|o: Seq<ConversationInfo>| applied_all(
                old(self).spec_domains().conversations.view(),
                old(self).spec_login()->Some_0,
                messages@,
                o,
                self.spec_domains().conversations.view(),
            ) && self.spec_log() == old(self).spec_log() + seq![
                (old(self).spec_ids(), EventView::NewMessages(messages@)),
                (old(self).spec_ids(), EventView::ConversationChanged(by_conversation(o))),
            ]);
        }
        Ok(messages)
    }

    /// Takes the messages pushed to the owner from the transport, then
    /// applies the answer with `apply_pushed_messages`.
    pub fn receive_transport_pushes<T: SessionMessageTransport + ?Sized>(&mut self, transport: &mut T) -> (r: Result<
        Vec<ChatMessage>,
        OpenImError,
    >)
        ensures
            exists|answer: Result<Vec<ChatMessage>, OpenImError>| #[trigger] pushes_applied(
                *old(self),
                answer,
                r,
                *final(self),
            ),
    {
        let owner_user_id = match self.logged_in_user_id() {
            Ok(u) => u,
            Err(e) => {
                assert(pushes_applied(*old(self), Err::<Vec<ChatMessage>, OpenImError>(e), Err(e), *self));
                return Err(e);
            },
        };
        let answer = transport.pop_push_messages(owner_user_id.as_str());
        let ghost a = answer;
        let r = self.apply_pushed_messages(answer);
        assert(pushes_applied(*old(self), a, r, *self));
        r
    }

    /// Applies a transport's answer of pushed messages: checks that each is
    /// the owner's to see, stores each, advances their conversations, and
    /// tells of the new messages and the changed conversations.
    pub fn apply_pushed_messages(&mut self, answer: Result<Vec<ChatMessage>, OpenImError>) -> (r: Result<
        Vec<ChatMessage>,
        OpenImError,
    >)
        ensures
            pushes_applied(*old(self), answer, r, *final(self)),
    {
        let owner_user_id = self.logged_in_user_id()?;
        let pushed = match answer {
            Ok(p) => p,
            Err(e) => {
                return Err(e);
            },
        };
        if pushed.len() == 0 {
            return Ok(pushed);
        }
        let ghost m0 = self.domains.messages.view();
        let mut received: Vec<ChatMessage> = Vec::new();
        let mut i: usize = 0;
        while i < pushed.len()
            invariant
                i <= pushed@.len(),
                received@.len() == i,
                self.same_as_but_domains(&*old(self)),
                others_kept(self.spec_domains(), old(self).spec_domains()),
                self.spec_domains().conversations == old(self).spec_domains().conversations,
                m0 == old(self).spec_domains().messages.view(),
                old(self).spec_state() == SessionState::LoggedIn,
                self.spec_login() == Some(owner_user_id@),
                pushed@.len() > 0,
                answer == Ok::<Vec<ChatMessage>, OpenImError>(pushed),
                forall|j: int| 0 <= j < i ==> #[trigger] received@[j] == received_form(pushed@[j]),
                self.domains.messages.view() == stored_all(m0, received@),
                forall|j: int| 0 <= j < i ==> visible_to(owner_user_id@, #[trigger] received@[j])
                    && crate::domain::message::message_error(received@[j]) is None && received@[j].status != MessageStatus::Sending,
            decreases pushed.len() - i,
        {
            let message = pushed[i].duplicate();
            ensure_message_visible_to_owner(owner_user_id.as_str(), &message)?;
            let ghost before = received@;
            let stored = self.domains.messages.receive_message(message)?;
            proof {
                assert(stored.spec_key() == pushed@[i as int].spec_key());
            }
            received.push(stored);
            proof {
                assert(received@.drop_last() =~= before);
                assert(received@[i as int] == received_form(pushed@[i as int]));
                assert(crate::domain::message::message_error(stored) is None);
            }
            i = i + 1;
        }
        let conversations = self.apply_messages_to_conversations(owner_user_id.as_str(), &received)?;
        let ghost outs = choose|outs: Seq<ConversationInfo>| applied_all(
            old(self).spec_domains().conversations.view(),
            owner_user_id@,
            received@,
            outs,
            self.spec_domains().conversations.view(),
        ) && conversations@ == by_conversation(outs);
        self.dispatch_new_messages(copy_messages(&received))?;
        proof {
            lemma_by_conversation_nonempty(outs);
        }
        self.dispatch_conversation_changed(conversations)?;
        proof {
            assert(self.spec_log() =~= old(self).spec_log() + seq![
                (old(self).spec_ids(), EventView::NewMessages(received@)),
                (old(self).spec_ids(), EventView::ConversationChanged(by_conversation(outs))),
            ]);
            assert(applied_all(
                old(self).spec_domains().conversations.view(),
                owner_user_id@,
                received@,
                outs,
                self.spec_domains().conversations.view(),
            ));
            assert(old(self).spec_login()->Some_0 == owner_user_id@);
            assert(applied_all(
                old(self).spec_domains().conversations.view(),
                old(self).spec_login()->Some_0,
                received@,
                outs,
                self.spec_domains().conversations.view(),
            ));
            assert(exists|o: Seq<ConversationInfo>| applied_all(
                old(self).spec_domains().conversations.view(),
                old(self).spec_login()->Some_0,
                received@,
                o,
                self.spec_domains().conversations.view(),
            ) && self.spec_log() == old(self).spec_log() + seq![
                (old(self).spec_ids(), EventView::NewMessages(received@)),
                (old(self).spec_ids(), EventView::ConversationChanged(by_conversation(o))),
            ]);
        }
        Ok(received)
    }
}

/// Putting a conversation in never empties the list.
proof fn lemma_put_by_id_nonempty(l: Seq<ConversationInfo>, c: ConversationInfo)
    ensures
        put_by_id(l, c).len() > 0,
    decreases l.len(),
{
    if l.len() > 0 && l[0].conversation_id@ != c.conversation_id@ && !seq_lt(c.conversation_id@, l[0].conversation_id@) {
        lemma_put_by_id_nonempty(l.drop_first(), c);
    }
}

/// Some conversation changes when some message was applied.
proof fn lemma_by_conversation_nonempty(outs: Seq<ConversationInfo>)
    requires
        outs.len() > 0,
    ensures
        by_conversation(outs).len() > 0,
{
    lemma_put_by_id_nonempty(by_conversation(outs.drop_last()), outs.last());
}


/// Login law: valid credentials log in from an initialized or a logged-out
/// session, and are refused on a session that is not initialized or already
/// logged in; invalid credentials are refused in every state with their own
/// error.
pub proof fn law_login_states(c: LoginCredentials, state: SessionState)
    ensures
        credentials_error(c) is None ==> login_error(SessionState::Initialized, c) is None,
        credentials_error(c) is None ==> login_error(SessionState::LoggedOut, c) is None,
        credentials_error(c) is None ==> login_error(SessionState::Created, c) is Some,
        credentials_error(c) is None ==> login_error(SessionState::Uninitialized, c) is Some,
        credentials_error(c) is None ==> login_error(SessionState::LoggedIn, c) is Some,
        c.user_id@.len() == 0 ==> login_error(state, c) == Some(error_of(10002, empty_message("user_id"@))),
        c.user_id@.len() > 0 && c.token@.len() == 0 ==> login_error(state, c) == Some(error_of(10002, empty_message("token"@))),
{
}

} // verus!
