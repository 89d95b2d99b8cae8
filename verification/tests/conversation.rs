use openim::domain::conversation::{ConversationInfo, ConversationService};
use openim::domain::message::{ChatMessage, MessageContent, MessageSnapshot};
use openim::types::{MessageContentType, Pagination, SessionType};

fn inbound_message(client_msg_id: &str, content: &str, seq: i64, send_time: i64) -> ChatMessage {
    ChatMessage::incoming(
        client_msg_id,
        &format!("server-{client_msg_id}"),
        "u2",
        "u1",
        SessionType::Single,
        MessageContent::Text {
            content: content.to_string(),
        },
        seq,
        send_time,
    )
    .unwrap()
}

fn conversation(
    owner_user_id: &str,
    conversation_id: &str,
    show_name: &str,
    latest_time: i64,
) -> ConversationInfo {
    ConversationInfo {
        owner_user_id: owner_user_id.to_string(),
        conversation_id: conversation_id.to_string(),
        conversation_type: SessionType::Single,
        user_id: show_name.to_string(),
        group_id: String::new(),
        show_name: show_name.to_string(),
        face_url: String::new(),
        recv_msg_opt: 0,
        unread_count: 0,
        latest_message: Some(MessageSnapshot {
            client_msg_id: format!("msg-{show_name}"),
            sender_user_id: show_name.to_string(),
            content_type: MessageContentType::Text,
            summary: show_name.to_string(),
            send_time: latest_time,
            seq: latest_time,
        }),
        latest_msg_send_time: latest_time,
        draft_text: String::new(),
        draft_text_time: 0,
        is_pinned: false,
        max_seq: latest_time,
        min_seq: 0,
        ex: String::new(),
    }
}

#[test]
fn apply_messages_updates_latest_and_unread_count() {
    let mut service = ConversationService::new();
    let inbound = inbound_message("m1", "hello", 1, 10);
    let outbound = ChatMessage::outgoing(
        "m2",
        "u1",
        "u2",
        SessionType::Single,
        MessageContent::Text {
            content: "reply".to_string(),
        },
        20,
    )
    .unwrap();

    service.apply_message("u1", &inbound).unwrap();
    let conversation = service.apply_message("u1", &outbound).unwrap();

    assert_eq!(conversation.unread_count, 1);
    assert_eq!(conversation.latest_message.unwrap().client_msg_id, "m2");
    assert_eq!(service.total_unread_count("u1").unwrap(), 1);

    assert_eq!(
        service
            .mark_conversation_read("u1", &inbound.conversation_id)
            .unwrap(),
        1
    );
    assert_eq!(service.total_unread_count("u1").unwrap(), 0);
}

#[test]
fn sync_conversations_is_owner_scoped_and_sorted() {
    let mut service = ConversationService::new();
    let mut old = conversation("u1", "si_old", "old", 1);
    old.is_pinned = true;
    service.upsert_conversation(old).unwrap();
    service
        .upsert_conversation(conversation("other", "si_keep", "keep", 9))
        .unwrap();

    let mut pinned = conversation("u1", "si_pin", "pin", 2);
    pinned.is_pinned = true;
    let normal = conversation("u1", "si_new", "new", 99);
    let summary = service
        .sync_conversations("u1", vec![normal.clone(), pinned.clone()])
        .unwrap();

    assert_eq!(summary.inserted, 2);
    assert_eq!(summary.deleted, 1);
    assert!(service
        .get_conversation("other", "si_keep")
        .unwrap()
        .is_some());

    let conversations = service.all_conversations("u1").unwrap();
    assert_eq!(conversations[0].conversation_id, "si_pin");
    assert_eq!(conversations[1].conversation_id, "si_new");
}

#[test]
fn draft_pin_search_and_mark_all_read_work() {
    let mut service = ConversationService::new();
    let message = inbound_message("m1", "searchable latest", 1, 10);
    service.apply_message("u1", &message).unwrap();
    service
        .set_draft("u1", &message.conversation_id, "draft words", 20)
        .unwrap();
    service
        .set_pinned("u1", &message.conversation_id, true)
        .unwrap();

    let matches = service
        .search_conversations(
            "u1",
            "draft",
            Pagination {
                page_number: 0,
                show_number: 10,
            },
        )
        .unwrap();
    assert_eq!(matches[0].conversation_id, message.conversation_id);
    assert!(matches[0].is_pinned);

    assert_eq!(service.mark_all_read("u1").unwrap(), 1);
    assert_eq!(service.total_unread_count("u1").unwrap(), 0);
}

#[test]
fn unknown_conversation_cannot_be_marked_read() {
    let mut service = ConversationService::new();
    let err = service.mark_conversation_read("u1", "si_missing").unwrap_err();
    assert_eq!(err.code().as_i32(), 10002);
    assert_eq!(err.message(), "conversation not found");
    let err = service.mark_conversation_read("", "si_missing").unwrap_err();
    assert_eq!(err.code().as_i32(), 10002);
    assert_eq!(err.message(), "owner_user_id is empty");
}

#[test]
fn outgoing_message_does_not_count_as_unread() {
    let mut service = ConversationService::new();
    let outbound = ChatMessage::outgoing(
        "m1",
        "u1",
        "u2",
        SessionType::Single,
        MessageContent::Text {
            content: "hi".to_string(),
        },
        5,
    )
    .unwrap();
    let conv = service.apply_message("u1", &outbound).unwrap();
    assert_eq!(conv.unread_count, 0);
    assert_eq!(conv.conversation_id, "si_u1_u2");
    assert_eq!(conv.latest_msg_send_time, 5);
    assert_eq!(service.len(), 1);
    assert!(!service.is_empty());
}

#[test]
fn older_message_does_not_replace_latest() {
    let mut service = ConversationService::new();
    let newer = inbound_message("m2", "newer", 2, 20);
    let older = inbound_message("m1", "older", 1, 10);
    service.apply_message("u1", &newer).unwrap();
    let conv = service.apply_message("u1", &older).unwrap();
    assert_eq!(conv.latest_message.unwrap().client_msg_id, "m2");
    assert_eq!(conv.unread_count, 2);
    assert_eq!(conv.latest_msg_send_time, 20);
}

#[test]
fn paged_conversations_use_page_windows() {
    let mut service = ConversationService::new();
    service.upsert_conversation(conversation("u1", "si_a", "a", 3)).unwrap();
    service.upsert_conversation(conversation("u1", "si_b", "b", 2)).unwrap();
    service.upsert_conversation(conversation("u1", "si_c", "c", 1)).unwrap();
    let page = service
        .paged_conversations(
            "u1",
            Pagination {
                page_number: 1,
                show_number: 2,
            },
        )
        .unwrap();
    assert_eq!(page.len(), 1);
    assert_eq!(page[0].conversation_id, "si_c");
    service.delete_conversation("u1", "si_c").unwrap();
    assert!(service.get_conversation("u1", "si_c").unwrap().is_none());
}
