use openim::domain::conversation::ConversationInfo;
use openim::domain::message::{ChatMessage, MessageContent, MessageSnapshot};
use openim::errors::OpenImError;
use openim::records::{
    chat_logs_table_name, conversation_from_row, conversation_row, group_id_from_conversation,
    history_window, message_from_row, message_row, non_empty, quoted_identifier, stored_version,
    version_record_from_row,
};
use openim::storage::VersionRecord;
use openim::types::{MessageContentType, MessageStatus, Pagination, SessionType};

fn text(content: &str) -> MessageContent {
    MessageContent::Text {
        content: content.to_string(),
    }
}

#[test]
fn chat_log_tables_are_named_per_conversation() {
    assert_eq!(chat_logs_table_name("si_u1_u2").unwrap(), "chat_logs_si_u1_u2");
    assert_eq!(
        chat_logs_table_name("").unwrap_err().message(),
        "conversation_id is empty"
    );
}

#[test]
fn identifiers_are_quoted_with_doubled_quotes() {
    assert_eq!(quoted_identifier("chat_logs_a"), "\"chat_logs_a\"");
    assert_eq!(quoted_identifier("a\"b"), "\"a\"\"b\"");
    assert_eq!(quoted_identifier(""), "\"\"");
}

#[test]
fn group_ids_are_read_back_from_conversation_ids() {
    assert_eq!(group_id_from_conversation("g_g1", SessionType::WriteGroup), "g1");
    assert_eq!(group_id_from_conversation("sg_g1", SessionType::ReadGroup), "g1");
    assert_eq!(group_id_from_conversation("other", SessionType::ReadGroup), "other");
    assert_eq!(group_id_from_conversation("si_a_b", SessionType::Single), "");
    assert_eq!(non_empty(String::new()), None);
    assert_eq!(non_empty("x".to_string()), Some("x".to_string()));
}

#[test]
fn message_rows_round_trip() {
    let message = ChatMessage::incoming(
        "client-1",
        "server-1",
        "u2",
        "u1",
        SessionType::Single,
        text("hello"),
        1,
        100,
    )
    .unwrap();
    let row = message_row(&message);
    assert_eq!(row.server_msg_id, "server-1");
    assert_eq!(row.session_type, 1);
    assert_eq!(row.content_type, 101);
    let back = message_from_row(row, Ok(text("hello")), &message.conversation_id).unwrap();
    assert_eq!(back, message);
}

#[test]
fn invalid_message_rows_are_refused_in_order() {
    let message = ChatMessage::outgoing("c", "u1", "g1", SessionType::ReadGroup, text("x"), 1).unwrap();
    let mut row = message_row(&message);
    row.status = 4;
    let stored = message_from_row(row.clone(), Ok(text("x")), "sg_g1").unwrap();
    assert!(stored.revoked);
    assert_eq!(stored.status, MessageStatus::HasDeleted);
    assert_eq!(stored.group_id, "g1");
    assert_eq!(stored.server_msg_id, None);

    row.session_type = 9;
    row.content_type = 999;
    let err: OpenImError = message_from_row(row.clone(), Ok(text("x")), "sg_g1").unwrap_err();
    assert_eq!(err.message(), "sqlite message has invalid session_type");
    assert_eq!(err.code().as_i32(), 10006);
    row.session_type = 3;
    let err = message_from_row(row.clone(), Ok(text("x")), "sg_g1").unwrap_err();
    assert_eq!(err.message(), "sqlite message has invalid content_type");
    row.content_type = MessageContentType::Text.as_i32();
    let err = message_from_row(row, Err("expected value".to_string()), "sg_g1").unwrap_err();
    assert_eq!(err.message(), "sqlite json error: expected value");
}

#[test]
fn conversation_rows_round_trip_and_check_counts() {
    let message = ChatMessage::incoming(
        "client-1",
        "server-1",
        "u2",
        "u1",
        SessionType::Single,
        text("hello"),
        1,
        100,
    )
    .unwrap();
    let mut conversation = ConversationInfo::from_message("u1", &message).unwrap();
    conversation.latest_message = Some(MessageSnapshot::from_message(&message));
    let row = conversation_row(&conversation, "{..}".to_string());
    let back = conversation_from_row(row.clone(), Ok(MessageSnapshot::from_message(&message))).unwrap();
    assert_eq!(back, conversation);

    let mut empty = row.clone();
    empty.latest_msg = String::new();
    let back = conversation_from_row(empty, Err("unused".to_string())).unwrap();
    assert_eq!(back.latest_message, None);

    let mut negative = row.clone();
    negative.unread_count = -1;
    assert_eq!(
        conversation_from_row(negative, Err("unused".to_string()))
            .unwrap_err()
            .message(),
        "sqlite unread_count is negative"
    );
    let mut bad_type = row;
    bad_type.conversation_type = 0;
    assert_eq!(
        conversation_from_row(bad_type, Err("unused".to_string()))
            .unwrap_err()
            .message(),
        "sqlite conversation has invalid conversation_type"
    );
}

#[test]
fn version_rows_default_missing_columns() {
    let record = version_record_from_row(
        "local_group_entities_version".to_string(),
        "1076204769".to_string(),
        None,
        None,
        None,
        Ok(vec!["8879166186".to_string()]),
    )
    .unwrap();
    assert_eq!(record.version, 0);
    assert_eq!(record.version_id, "");
    assert_eq!(record.create_time, 0);
    assert_eq!(record.uid_list, vec!["8879166186".to_string()]);
    let err = version_record_from_row(
        "t".to_string(),
        "e".to_string(),
        None,
        Some(-1),
        None,
        Ok(Vec::new()),
    )
    .unwrap_err();
    assert_eq!(err.message(), "sqlite version is negative");
    let mut big = VersionRecord::new("t", "e");
    big.version = u64::MAX;
    assert!(stored_version(&big).is_err());
    big.version = 7;
    assert_eq!(stored_version(&big).unwrap(), 7);
}

#[test]
fn history_pages_become_limit_and_offset() {
    assert_eq!(
        history_window(Pagination {
            page_number: 2,
            show_number: 10
        }),
        (10, 20)
    );
    assert_eq!(
        history_window(Pagination {
            page_number: -1,
            show_number: 0
        }),
        (200, 0)
    );
}
