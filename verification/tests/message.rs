use openim::domain::file::FileDigest;
use openim::domain::message::{
    conversation_id_by_session_type, prepare_outgoing, ChatMessage, FileElem, MessageContent,
    MessageSender, MessageService, PictureElem, SendMessageAck,
};
use openim::errors::OpenImError;
use openim::types::{MessageContentType, MessageStatus, Pagination, SessionType};

#[derive(Default)]
struct RecordingSender {
    sent: Vec<String>,
}

impl MessageSender for RecordingSender {
    fn send_message(&mut self, message: &ChatMessage) -> Result<SendMessageAck, OpenImError> {
        self.sent.push(message.client_msg_id.clone());
        Ok(SendMessageAck {
            server_msg_id: format!("server-{}", message.client_msg_id),
            seq: self.sent.len() as i64,
            send_time: message.send_time + 100,
        })
    }
}

struct FailingSender;

impl MessageSender for FailingSender {
    fn send_message(&mut self, _message: &ChatMessage) -> Result<SendMessageAck, OpenImError> {
        Err(OpenImError::args("offline"))
    }
}

fn text(content: &str) -> MessageContent {
    MessageContent::Text {
        content: content.to_string(),
    }
}

#[test]
fn sends_text_picture_and_file_messages() {
    let mut service = MessageService::new();
    let mut sender = RecordingSender::default();
    let messages = vec![
        ChatMessage::outgoing("text-1", "u1", "u2", SessionType::Single, text("hello"), 10).unwrap(),
        ChatMessage::outgoing(
            "pic-1",
            "u1",
            "u2",
            SessionType::Single,
            MessageContent::Picture(PictureElem {
                source_url: "https://img.test/a.png".to_string(),
                snapshot_url: String::new(),
                width: 100,
                height: 80,
                size: 1024,
                image_type: "png".to_string(),
            }),
            11,
        )
        .unwrap(),
        ChatMessage::outgoing(
            "file-1",
            "u1",
            "u2",
            SessionType::Single,
            MessageContent::File(FileElem {
                source_url: "https://file.test/a.zip".to_string(),
                file_name: "a.zip".to_string(),
                file_size: 2048,
                file_type: "zip".to_string(),
            }),
            12,
        )
        .unwrap(),
    ];

    for message in messages {
        let sent = service.send_message(message, &mut sender).unwrap();
        assert_eq!(sent.status, MessageStatus::SendSuccess);
        assert!(sent.server_msg_id.unwrap().starts_with("server-"));
    }

    assert_eq!(sender.sent, vec!["text-1", "pic-1", "file-1"]);
    assert_eq!(service.len(), 3);
}

#[test]
fn receives_marks_reads_revokes_and_searches_history() {
    let mut service = MessageService::new();
    let inbound = ChatMessage::incoming(
        "recv-1",
        "server-1",
        "u2",
        "u1",
        SessionType::Single,
        text("phase seven hello"),
        7,
        70,
    )
    .unwrap();
    let outbound =
        ChatMessage::outgoing("send-1", "u1", "u2", SessionType::Single, text("older"), 10).unwrap();
    service.upsert_message(outbound).unwrap();
    service.receive_message(inbound.clone()).unwrap();

    assert!(
        !service
            .get_message(&inbound.conversation_id, "recv-1")
            .unwrap()
            .unwrap()
            .is_read
    );
    service.mark_read(&inbound.conversation_id, "recv-1").unwrap();
    assert!(
        service
            .get_message(&inbound.conversation_id, "recv-1")
            .unwrap()
            .unwrap()
            .is_read
    );

    let matches = service
        .search(
            "seven",
            Some(&inbound.conversation_id),
            Pagination {
                page_number: 0,
                show_number: 10,
            },
        )
        .unwrap();
    assert_eq!(matches[0].client_msg_id, "recv-1");

    let history = service
        .history(
            &inbound.conversation_id,
            Pagination {
                page_number: 0,
                show_number: 1,
            },
        )
        .unwrap();
    assert_eq!(history[0].client_msg_id, "recv-1");

    let revoked = service
        .revoke_message(&inbound.conversation_id, "recv-1")
        .unwrap();
    assert!(revoked.revoked);
    assert_eq!(revoked.status, MessageStatus::HasDeleted);
}

#[test]
fn sync_message_range_merges_without_deleting_history() {
    let mut service = MessageService::new();
    let old = ChatMessage::incoming("old", "server-old", "u2", "u1", SessionType::Single, text("old"), 1, 1)
        .unwrap();
    let mut updated = ChatMessage::incoming(
        "same",
        "server-same",
        "u2",
        "u1",
        SessionType::Single,
        text("before"),
        2,
        2,
    )
    .unwrap();
    let conversation_id = old.conversation_id.clone();
    service.upsert_message(old).unwrap();
    service.upsert_message(updated.clone()).unwrap();

    updated.content = text("after");
    let new_message =
        ChatMessage::incoming("new", "server-new", "u2", "u1", SessionType::Single, text("new"), 3, 3)
            .unwrap();

    let summary = service
        .sync_message_range(&conversation_id, vec![updated.clone(), new_message])
        .unwrap();

    assert_eq!(summary.inserted, 1);
    assert_eq!(summary.updated, 1);
    assert_eq!(summary.deleted, 0);
    assert_eq!(service.all_messages(&conversation_id).unwrap().len(), 3);
    assert_eq!(
        service
            .get_message(&conversation_id, "same")
            .unwrap()
            .unwrap()
            .content
            .summary(),
        "after"
    );
}

#[test]
fn conversation_ids_match_go_prefixes() {
    assert_eq!(
        conversation_id_by_session_type("u2", "u1", SessionType::Single).unwrap(),
        "si_u1_u2"
    );
    assert_eq!(
        conversation_id_by_session_type("u1", "g1", SessionType::WriteGroup).unwrap(),
        "g_g1"
    );
    assert_eq!(
        conversation_id_by_session_type("u1", "g1", SessionType::ReadGroup).unwrap(),
        "sg_g1"
    );
}

#[test]
fn single_conversation_id_is_symmetric() {
    let a = conversation_id_by_session_type("alice", "bob", SessionType::Single).unwrap();
    let b = conversation_id_by_session_type("bob", "alice", SessionType::Single).unwrap();
    assert_eq!(a, b);
    assert_eq!(a, "si_alice_bob");
    assert_eq!(
        conversation_id_by_session_type("x", "n1", SessionType::Notification).unwrap(),
        "sn_n1_x"
    );
    assert!(conversation_id_by_session_type("", "g1", SessionType::WriteGroup).is_err());
}

#[test]
fn failed_send_is_stored_as_failed() {
    let mut service = MessageService::new();
    let message =
        ChatMessage::outgoing("m1", "u1", "u2", SessionType::Single, text("hi"), 10).unwrap();
    let conversation_id = message.conversation_id.clone();
    let err = service.send_message(message, &mut FailingSender).unwrap_err();
    assert_eq!(err.message(), "offline");
    let stored = service.get_message(&conversation_id, "m1").unwrap().unwrap();
    assert_eq!(stored.status, MessageStatus::SendFailed);
}

#[test]
fn summaries_describe_each_content_kind() {
    assert_eq!(text("hello").summary(), "hello");
    assert_eq!(text("hello").content_type(), MessageContentType::Text);
    let picture = MessageContent::Picture(PictureElem {
        source_url: "https://img.test/a.png".to_string(),
        snapshot_url: String::new(),
        width: 1,
        height: 1,
        size: 1,
        image_type: "png".to_string(),
    });
    assert_eq!(picture.summary(), "https://img.test/a.png");
    assert_eq!(picture.content_type(), MessageContentType::Picture);
}

#[test]
fn empty_text_is_rejected() {
    let err = ChatMessage::outgoing("m1", "u1", "u2", SessionType::Single, text(""), 1).unwrap_err();
    assert_eq!(err.code().as_i32(), 10002);
}

#[test]
fn file_content_is_built_from_an_upload() {
    let digest = FileDigest {
        file_name: "report.pdf".to_string(),
        file_size: 120,
        content_type: "application/pdf".to_string(),
        sha256: "sha".to_string(),
    };
    let content = MessageContent::file_from_upload(&digest, "https://cdn.test/report.pdf").unwrap();
    match content {
        MessageContent::File(elem) => {
            assert_eq!(elem.file_name, "report.pdf");
            assert_eq!(elem.file_size, 120);
            assert_eq!(elem.source_url, "https://cdn.test/report.pdf");
        }
        other => panic!("unexpected content {other:?}"),
    }
}

#[test]
fn the_sender_receives_the_message_sending_and_read() {
    let message =
        ChatMessage::outgoing("m1", "u1", "u2", SessionType::Single, text("hi"), 10).unwrap();
    let prepared = prepare_outgoing(message.clone());
    assert_eq!(prepared.status, MessageStatus::Sending);
    assert!(prepared.is_read);
    assert_eq!(prepared.client_msg_id, message.client_msg_id);
}

#[test]
fn send_outcomes_are_recorded_as_answered() {
    let mut service = MessageService::new();
    let prepared = prepare_outgoing(
        ChatMessage::outgoing("m1", "u1", "u2", SessionType::Single, text("hi"), 10).unwrap(),
    );
    let conversation_id = prepared.conversation_id.clone();
    service.upsert_message(prepared.clone()).unwrap();

    let err = service
        .record_send_outcome(&prepared, Err(OpenImError::args("offline")))
        .unwrap_err();
    assert_eq!(err.message(), "offline");
    assert_eq!(
        service.get_message(&conversation_id, "m1").unwrap().unwrap().status,
        MessageStatus::SendFailed
    );

    let sent = service
        .record_send_outcome(
            &prepared,
            Ok(SendMessageAck { server_msg_id: "s1".to_string(), seq: 7, send_time: 70 }),
        )
        .unwrap();
    assert_eq!(sent.status, MessageStatus::SendSuccess);
    assert_eq!(sent.seq, 7);

    let missing = prepare_outgoing(
        ChatMessage::outgoing("m2", "u1", "u2", SessionType::Single, text("hi"), 10).unwrap(),
    );
    let err = service
        .record_send_outcome(&missing, Err(OpenImError::args("offline")))
        .unwrap_err();
    assert_eq!(err.message(), "message not found");
}
