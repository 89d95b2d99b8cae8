use openim::types::{paginate, MessageContentType, MessageStatus, Pagination, Platform, SessionType};

#[test]
fn platform_ids_match_go_constants() {
    assert_eq!(Platform::Ios.as_i32(), 1);
    assert_eq!(Platform::Web.as_i32(), 5);
    assert_eq!(Platform::HarmonyOs.as_i32(), 11);
    assert_eq!(Platform::from_i32(7), Some(Platform::Linux));
    assert_eq!(Platform::from_i32(99), None);
}

#[test]
fn pagination_keeps_go_default_semantics() {
    let pagination = Pagination {
        page_number: -1,
        show_number: 0,
    }
    .normalized();
    assert_eq!(pagination.page_number, 0);
    assert_eq!(pagination.show_number, 200);
}

#[test]
fn numeric_enums_serialize_as_contract_ids() {
    assert_eq!(Platform::Web.as_i32(), 5);
    assert_eq!(MessageStatus::from_i32(3), Some(MessageStatus::SendFailed));
    assert_eq!(SessionType::from_i32(99), None);
    assert_eq!(SessionType::ReadGroup.as_i32(), 3);
    assert_eq!(MessageContentType::MarkdownText.as_i32(), 118);
    assert_eq!(MessageContentType::from_i32(112), None);
    assert_eq!(MessageContentType::from_i32(113), Some(MessageContentType::Typing));
}

#[test]
fn paginate_takes_the_requested_window() {
    let items: Vec<i32> = (0..10).collect();
    let page = paginate(
        items.clone(),
        Pagination {
            page_number: 2,
            show_number: 3,
        },
    );
    assert_eq!(page, vec![6, 7, 8]);
    let beyond = paginate(
        items,
        Pagination {
            page_number: 5,
            show_number: 3,
        },
    );
    assert!(beyond.is_empty());
}
