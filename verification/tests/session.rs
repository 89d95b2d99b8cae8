use std::sync::{Arc, Mutex};

use openim::domain::conversation::ConversationInfo;
use openim::domain::file::FileDigest;
use openim::domain::message::{
    ChatMessage, MessageContent, MessageSender, MessageSnapshot, SendMessageAck,
};
use openim::domain::user::UserProfile;
use openim::errors::OpenImError;
use openim::session::{
    LoginCredentials, OpenImSession, SessionConfig, SessionEvent, SessionMessageTransport,
    SessionResource, SessionResourceAdapter, SessionResourceHandle, SessionResourceInfo,
    SessionResourceKind, SessionRuntimeResources, SessionState, StorageTarget, TaskSupervisor,
    openim_db_file, state_code,
    SYNC_TASK, TRANSPORT_TASK,
};
use openim::transport::TransportConfig;
use openim::types::{MessageStatus, Pagination, Platform, SessionType};

fn config() -> SessionConfig {
    SessionConfig::new(Platform::Web, "https://api.openim.test", "wss://ws.openim.test")
}

fn credentials() -> LoginCredentials {
    LoginCredentials::new("u1", "token")
}

fn inbound_message() -> ChatMessage {
    ChatMessage::incoming(
        "client-1",
        "server-1",
        "u2",
        "u1",
        SessionType::Single,
        MessageContent::Text {
            content: "hello".to_string(),
        },
        1,
        100,
    )
    .unwrap()
}

fn storage_label(storage: &StorageTarget) -> String {
    match storage {
        StorageTarget::IndexedDb { name } => name.clone(),
        StorageTarget::Sqlite { path } => path.clone(),
        StorageTarget::Unconfigured => "unconfigured".to_string(),
    }
}

struct RecordingAdapter {
    calls: Arc<Mutex<Vec<String>>>,
}

impl SessionResourceAdapter for RecordingAdapter {
    fn init(&mut self, _config: &SessionConfig) -> Result<(), OpenImError> {
        self.calls.lock().unwrap().push("init".to_string());
        Ok(())
    }

    fn login(
        &mut self,
        _config: &SessionConfig,
        credentials: &LoginCredentials,
        transport: &TransportConfig,
        storage: &StorageTarget,
    ) -> Result<SessionRuntimeResources, OpenImError> {
        self.calls.lock().unwrap().push(format!(
            "login:{}:{}:{}",
            credentials.user_id,
            transport.ws_addr,
            storage_label(storage)
        ));
        SessionRuntimeResources::new(&credentials.user_id, transport.clone(), storage.clone())
    }

    fn logout(&mut self, user_id: &str) -> Result<(), OpenImError> {
        self.calls.lock().unwrap().push(format!("logout:{user_id}"));
        Ok(())
    }

    fn uninit(&mut self) -> Result<(), OpenImError> {
        self.calls.lock().unwrap().push("uninit".to_string());
        Ok(())
    }
}

struct HandleAdapter {
    calls: Arc<Mutex<Vec<String>>>,
}

impl SessionResourceAdapter for HandleAdapter {
    fn init(&mut self, _config: &SessionConfig) -> Result<(), OpenImError> {
        Ok(())
    }

    fn login(
        &mut self,
        _config: &SessionConfig,
        credentials: &LoginCredentials,
        transport: &TransportConfig,
        storage: &StorageTarget,
    ) -> Result<SessionRuntimeResources, OpenImError> {
        let mut resources =
            SessionRuntimeResources::new(&credentials.user_id, transport.clone(), storage.clone())?;
        let storage_name = format!("storage:{}", storage_label(storage));
        resources.add_resource(SessionResource::new(
            SessionResourceKind::Storage,
            &storage_name,
            RecordingHandle {
                name: storage_name.clone(),
                calls: self.calls.clone(),
            },
        )?);
        let transport_name = format!("transport:{}", transport.ws_addr);
        resources.add_resource(SessionResource::new(
            SessionResourceKind::Transport,
            &transport_name,
            RecordingHandle {
                name: transport_name.clone(),
                calls: self.calls.clone(),
            },
        )?);
        Ok(resources)
    }

    fn logout(&mut self, _user_id: &str) -> Result<(), OpenImError> {
        Ok(())
    }

    fn uninit(&mut self) -> Result<(), OpenImError> {
        Ok(())
    }
}

struct RecordingHandle {
    name: String,
    calls: Arc<Mutex<Vec<String>>>,
}

impl SessionResourceHandle for RecordingHandle {
    fn close(&mut self) -> Result<(), OpenImError> {
        self.calls
            .lock()
            .unwrap()
            .push(format!("close:{}", self.name));
        Ok(())
    }
}

#[derive(Default)]
struct FakeSessionMessageTransport {
    sent: Vec<String>,
    pull_requests: Vec<(String, String)>,
    push_requests: Vec<String>,
    pulled: Vec<ChatMessage>,
    pushes: Vec<ChatMessage>,
    next_seq: i64,
}

impl MessageSender for FakeSessionMessageTransport {
    fn send_message(&mut self, message: &ChatMessage) -> Result<SendMessageAck, OpenImError> {
        self.sent.push(message.client_msg_id.clone());
        let seq = self.next_seq;
        self.next_seq += 1;
        Ok(SendMessageAck {
            server_msg_id: format!("server-{}", message.client_msg_id),
            seq,
            send_time: message.send_time + 1000,
        })
    }
}

impl SessionMessageTransport for FakeSessionMessageTransport {
    fn pull_messages(
        &mut self,
        owner_user_id: &str,
        conversation_id: &str,
    ) -> Result<Vec<ChatMessage>, OpenImError> {
        self.pull_requests
            .push((owner_user_id.to_string(), conversation_id.to_string()));
        let messages = std::mem::take(&mut self.pulled)
            .into_iter()
            .filter(|message| message.conversation_id == conversation_id)
            .collect();
        Ok(messages)
    }

    fn pop_push_messages(&mut self, owner_user_id: &str) -> Result<Vec<ChatMessage>, OpenImError> {
        self.push_requests.push(owner_user_id.to_string());
        Ok(std::mem::take(&mut self.pushes))
    }
}

#[test]
fn session_config_builds_transport_and_storage_targets() {
    let credentials = credentials();
    let transport = config().transport_config(&credentials, "op1").unwrap();

    assert_eq!(transport.ws_addr, "wss://ws.openim.test");
    assert_eq!(transport.user_id, "u1");
    assert_eq!(transport.token, "token");
    assert_eq!(transport.platform_id, Platform::Web.as_i32());
    assert_eq!(transport.operation_id, "op1");
    assert!(transport.compression);
    assert_eq!(
        config().storage_target("u1").unwrap(),
        StorageTarget::IndexedDb {
            name: "OpenIM_v3_u1".to_string(),
        }
    );

    let cwd = std::path::PathBuf::from("/srv/openim");
    let native = SessionConfig::new(Platform::Macos, "https://api.openim.test", "wss://ws.openim.test")
        .with_data_dir("db")
        .with_current_dir(&cwd.to_string_lossy());
    assert_eq!(
        native.storage_target("u1").unwrap(),
        StorageTarget::Sqlite {
            path: cwd
                .join(std::path::PathBuf::from("db").join("OpenIM_v3_u1.db"))
                .to_string_lossy()
                .into_owned(),
        }
    );
    let unconfigured =
        SessionConfig::new(Platform::Linux, "https://api.openim.test", "wss://ws.openim.test");
    assert_eq!(unconfigured.storage_target("u1").unwrap(), StorageTarget::Unconfigured);
}

#[test]
fn lifecycle_starts_and_stops_tasks() {
    let events = Arc::new(Mutex::new(Vec::<SessionEvent>::new()));
    let captured = events.clone();
    let mut session = OpenImSession::new(config()).unwrap();
    let listener_id = session.register_listener(move |event: &SessionEvent| {
        captured.lock().unwrap().push(event.clone());
    });

    session.init().unwrap();
    session.login(credentials()).unwrap();

    assert_eq!(session.state(), SessionState::LoggedIn);
    assert_eq!(session.login_user_id(), Some("u1"));
    assert!(session.is_task_running(TRANSPORT_TASK));
    assert!(session.is_task_running(SYNC_TASK));
    assert_eq!(session.listener_count(), 1);

    session.unregister_listener(listener_id);
    session.uninit().unwrap();

    let events = events.lock().unwrap();
    assert!(events.contains(&SessionEvent::Initialized));
    assert!(events.contains(&SessionEvent::LoggedIn {
        user_id: "u1".to_string(),
    }));
    assert!(events.contains(&SessionEvent::TaskStarted {
        name: TRANSPORT_TASK.to_string(),
    }));
    assert!(!events.contains(&SessionEvent::Uninitialized));
}

#[test]
fn logout_clears_login_scoped_resources_and_is_idempotent() {
    let mut session = OpenImSession::new(config()).unwrap();
    session.init().unwrap();
    session.login(credentials()).unwrap();
    session
        .domains_mut()
        .unwrap()
        .users
        .upsert_profile(UserProfile {
            user_id: "u1".to_string(),
            nickname: "Alice".to_string(),
            face_url: String::new(),
            ex: String::new(),
            updated_at: 1,
        })
        .unwrap();

    session.logout().unwrap();
    session.logout().unwrap();

    assert_eq!(session.state(), SessionState::LoggedOut);
    assert_eq!(session.login_user_id(), None);
    assert!(session.domains().users.is_empty());
    assert!(session.tasks().is_empty());
    assert!(session.domains_mut().is_err());
}

#[test]
fn login_requires_initialized_session_and_credentials() {
    let mut session = OpenImSession::new(config()).unwrap();

    assert!(session.login(credentials()).is_err());
    session.init().unwrap();
    assert!(session.login(LoginCredentials::new("", "token")).is_err());
    assert!(session.login(LoginCredentials::new("u1", "")).is_err());
}

#[test]
fn listener_unregister_stops_future_callbacks() {
    let first = Arc::new(Mutex::new(0));
    let second = Arc::new(Mutex::new(0));
    let mut session = OpenImSession::new(config()).unwrap();

    let first_events = first.clone();
    let first_id = session.register_listener(move |_: &SessionEvent| {
        *first_events.lock().unwrap() += 1;
    });
    let second_events = second.clone();
    session.register_listener(move |_: &SessionEvent| {
        *second_events.lock().unwrap() += 1;
    });

    session.unregister_listener(first_id);
    session.init().unwrap();

    assert_eq!(*first.lock().unwrap(), 2);
    assert_eq!(*second.lock().unwrap(), 3);
}

#[test]
fn dispatches_message_and_conversation_events_only_after_login() {
    let events = Arc::new(Mutex::new(Vec::<SessionEvent>::new()));
    let captured = events.clone();
    let mut session = OpenImSession::new(config()).unwrap();
    session.register_listener(move |event: &SessionEvent| {
        captured.lock().unwrap().push(event.clone());
    });

    assert!(session.dispatch_new_messages(Vec::new()).is_err());

    session.init().unwrap();
    session.login(credentials()).unwrap();
    let message = inbound_message();
    let mut conversation = ConversationInfo::from_message("u1", &message).unwrap();
    conversation.latest_message = Some(MessageSnapshot::from_message(&message));
    conversation.latest_msg_send_time = message.send_time;

    session.dispatch_new_messages(vec![message.clone()]).unwrap();
    session
        .dispatch_conversation_changed(vec![conversation.clone()])
        .unwrap();
    session.dispatch_new_messages(Vec::new()).unwrap();

    let events = events.lock().unwrap();
    assert!(events.contains(&SessionEvent::NewMessages {
        messages: vec![message],
    }));
    assert!(events.contains(&SessionEvent::ConversationChanged {
        conversations: vec![conversation],
    }));
    assert_eq!(
        events
            .iter()
            .filter(|event| matches!(event, SessionEvent::NewMessages { .. }))
            .count(),
        1
    );
}

#[test]
fn session_message_transport_sends_pulls_pushes_and_updates_conversations() {
    let events = Arc::new(Mutex::new(Vec::<SessionEvent>::new()));
    let captured = events.clone();
    let mut session = OpenImSession::new(config()).unwrap();
    session.register_listener(move |event: &SessionEvent| {
        captured.lock().unwrap().push(event.clone());
    });
    session.init().unwrap();
    session.login(credentials()).unwrap();

    let file = FileDigest {
        file_name: "report.pdf".to_string(),
        file_size: 42,
        content_type: "application/pdf".to_string(),
        sha256: "sha".to_string(),
    };
    let outgoing = ChatMessage::outgoing(
        "file-1",
        "u1",
        "u2",
        SessionType::Single,
        MessageContent::file_from_upload(&file, "https://cdn.openim.test/report.pdf").unwrap(),
        10,
    )
    .unwrap();
    let conversation_id = outgoing.conversation_id.clone();
    let pulled = ChatMessage::incoming(
        "pull-1",
        "server-pull-1",
        "u2",
        "u1",
        SessionType::Single,
        MessageContent::Text {
            content: "pulled".to_string(),
        },
        11,
        110,
    )
    .unwrap();
    let pushed = ChatMessage::incoming(
        "push-1",
        "server-push-1",
        "u2",
        "u1",
        SessionType::Single,
        MessageContent::Text {
            content: "pushed".to_string(),
        },
        12,
        120,
    )
    .unwrap();
    let mut transport = FakeSessionMessageTransport {
        pulled: vec![pulled.clone()],
        pushes: vec![pushed.clone()],
        next_seq: 10,
        ..FakeSessionMessageTransport::default()
    };

    let sent = session.send_message(outgoing.clone(), &mut transport).unwrap();
    let pulled_messages = session.pull_messages(&conversation_id, &mut transport).unwrap();
    let pushed_messages = session.receive_transport_pushes(&mut transport).unwrap();

    assert_eq!(sent.status, MessageStatus::SendSuccess);
    assert_eq!(sent.server_msg_id, Some("server-file-1".to_string()));
    assert_eq!(pulled_messages, vec![pulled.clone()]);
    assert_eq!(pushed_messages, vec![pushed.clone()]);
    assert_eq!(transport.sent, vec!["file-1".to_string()]);
    assert_eq!(
        transport.pull_requests,
        vec![("u1".to_string(), conversation_id.clone())]
    );
    assert_eq!(transport.push_requests, vec!["u1".to_string()]);

    assert_eq!(
        session
            .domains()
            .messages
            .history(
                &conversation_id,
                Pagination {
                    page_number: 0,
                    show_number: 10,
                },
            )
            .unwrap()
            .len(),
        3
    );
    let conversation = session
        .domains()
        .conversations
        .get_conversation("u1", &conversation_id)
        .unwrap()
        .unwrap();
    assert_eq!(conversation.unread_count, 2);
    assert_eq!(conversation.max_seq, 12);
    assert_eq!(conversation.latest_message.unwrap().client_msg_id, "push-1");

    let events = events.lock().unwrap();
    assert_eq!(
        events
            .iter()
            .filter(|event| matches!(event, SessionEvent::NewMessages { .. }))
            .count(),
        2
    );
    assert_eq!(
        events
            .iter()
            .filter(|event| matches!(event, SessionEvent::ConversationChanged { .. }))
            .count(),
        3
    );
}

#[test]
fn resource_adapter_receives_lifecycle_boundaries() {
    let calls = Arc::new(Mutex::new(Vec::new()));
    let adapter = RecordingAdapter {
        calls: calls.clone(),
    };
    let mut session = OpenImSession::with_resource_adapter(config(), Box::new(adapter)).unwrap();

    session.init().unwrap();
    session.login(credentials()).unwrap();
    session.logout().unwrap();
    session.uninit().unwrap();

    assert_eq!(
        *calls.lock().unwrap(),
        vec![
            "init".to_string(),
            "login:u1:wss://ws.openim.test:OpenIM_v3_u1".to_string(),
            "logout:u1".to_string(),
            "uninit".to_string(),
        ]
    );
}

#[test]
fn logout_closes_runtime_resource_handles() {
    let calls = Arc::new(Mutex::new(Vec::new()));
    let events = Arc::new(Mutex::new(Vec::<SessionEvent>::new()));
    let adapter = HandleAdapter {
        calls: calls.clone(),
    };
    let captured = events.clone();
    let mut session = OpenImSession::with_resource_adapter(config(), Box::new(adapter)).unwrap();
    session.register_listener(move |event: &SessionEvent| {
        captured.lock().unwrap().push(event.clone());
    });

    session.init().unwrap();
    session.login(credentials()).unwrap();

    let resources = session.runtime_resources().unwrap();
    assert_eq!(resources.user_id(), "u1");
    assert_eq!(
        resources.resource_infos(),
        vec![
            SessionResourceInfo {
                kind: SessionResourceKind::Storage,
                name: "storage:OpenIM_v3_u1".to_string(),
            },
            SessionResourceInfo {
                kind: SessionResourceKind::Transport,
                name: "transport:wss://ws.openim.test".to_string(),
            },
        ]
    );

    session.logout().unwrap();

    assert!(session.runtime_resources().is_none());
    assert_eq!(
        *calls.lock().unwrap(),
        vec![
            "close:transport:wss://ws.openim.test".to_string(),
            "close:storage:OpenIM_v3_u1".to_string(),
        ]
    );

    let events = events.lock().unwrap();
    assert!(events.contains(&SessionEvent::ResourceOpened {
        kind: SessionResourceKind::Storage,
        name: "storage:OpenIM_v3_u1".to_string(),
    }));
    assert!(events.contains(&SessionEvent::ResourceClosed {
        kind: SessionResourceKind::Transport,
        name: "transport:wss://ws.openim.test".to_string(),
    }));
}

#[test]
fn uninit_closes_runtime_resource_handles() {
    let calls = Arc::new(Mutex::new(Vec::new()));
    let adapter = HandleAdapter {
        calls: calls.clone(),
    };
    let mut session = OpenImSession::with_resource_adapter(config(), Box::new(adapter)).unwrap();

    session.init().unwrap();
    session.login(credentials()).unwrap();
    session.uninit().unwrap();

    assert!(session.runtime_resources().is_none());
    assert_eq!(session.state(), SessionState::Uninitialized);
    assert_eq!(
        *calls.lock().unwrap(),
        vec![
            "close:transport:wss://ws.openim.test".to_string(),
            "close:storage:OpenIM_v3_u1".to_string(),
        ]
    );
}

#[test]
fn session_rejects_invalid_config_and_repeated_login() {
    let err = match OpenImSession::new(SessionConfig::new(Platform::Web, "", "wss://x")) {
        Ok(_) => panic!("expected a config error"),
        Err(err) => err,
    };
    assert_eq!(err.message(), "api_addr is empty");
    let mut session = OpenImSession::new(config()).unwrap();
    session.init().unwrap();
    session.login(credentials()).unwrap();
    assert!(session.login(credentials()).is_err());
    assert!(session.init().is_ok());
    assert_eq!(session.state(), SessionState::LoggedIn);
}

#[test]
fn task_supervisor_starts_each_name_once() {
    let mut tasks = TaskSupervisor::new();
    assert!(tasks.start("a").unwrap());
    assert!(!tasks.start("a").unwrap());
    assert!(tasks.is_running("a"));
    assert!(tasks.start("").is_err());
    assert!(tasks.stop("a").unwrap());
    assert!(!tasks.stop("a").unwrap());
    tasks.start("b").unwrap();
    tasks.start("c").unwrap();
    let stopped = tasks.stop_all();
    assert_eq!(stopped.len(), 2);
    assert!(tasks.tasks().is_empty());
}

#[test]
fn state_codes_follow_the_lifecycle() {
    assert_eq!(state_code(SessionState::Created), 0);
    assert_eq!(state_code(SessionState::Initialized), 1);
    assert_eq!(state_code(SessionState::LoggedIn), 2);
    assert_eq!(state_code(SessionState::LoggedOut), 3);
    assert_eq!(state_code(SessionState::Uninitialized), 4);
}

#[test]
fn database_file_lies_under_the_working_directory_unless_absolute() {
    let expected = std::path::PathBuf::from("/srv/openim")
        .join(std::path::PathBuf::from("db").join("OpenIM_v3_u1.db"));
    assert_eq!(
        openim_db_file("/srv/openim", "db", "u1").unwrap(),
        expected.to_string_lossy()
    );
    assert_eq!(
        openim_db_file("/srv/openim", "/data/db", "u1").unwrap(),
        "/data/db/OpenIM_v3_u1.db"
    );
    assert!(openim_db_file("/srv/openim", "db", "").is_err());
}

#[test]
fn failed_pull_and_push_answers_are_returned_unchanged() {
    let mut session = OpenImSession::new(config()).unwrap();
    session.init().unwrap();
    session.login(credentials()).unwrap();

    let err = session
        .merge_pulled_messages("si_u1_u2", Err(OpenImError::args("pull failed")))
        .unwrap_err();
    assert_eq!(err.message(), "pull failed");
    let err = session
        .apply_pushed_messages(Err(OpenImError::args("push failed")))
        .unwrap_err();
    assert_eq!(err.message(), "push failed");

    let pushed = session.apply_pushed_messages(Ok(vec![inbound_message()])).unwrap();
    assert_eq!(pushed.len(), 1);
    assert_eq!(pushed[0].client_msg_id, "client-1");
    assert!(session.merge_pulled_messages("si_u1_u2", Ok(Vec::new())).unwrap().is_empty());
}
