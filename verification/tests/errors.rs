use openim::errors::{ensure_not_empty, ws_error, ErrorCategory, ErrorCode, OpenImError};

#[test]
fn preserves_unknown_error_code() {
    let err = OpenImError::new(ErrorCode::new(59999), "custom");

    assert_eq!(err.code().as_i32(), 59999);
    assert_eq!(err.category(), ErrorCategory::Unknown);
    assert_eq!(err.display(), "59999: custom");
}

#[test]
fn maps_go_sdk_error_categories() {
    assert_eq!(ErrorCode::network().category(), ErrorCategory::Common);
    assert_eq!(ErrorCode::login_out().category(), ErrorCategory::User);
    assert_eq!(
        ErrorCode::msg_decompression().category(),
        ErrorCategory::Message
    );
    assert_eq!(
        ErrorCode::unread_count().category(),
        ErrorCategory::Conversation
    );
    assert_eq!(ErrorCode::group_type().category(), ErrorCategory::Group);
}

#[test]
fn websocket_success_has_no_error() {
    assert!(ws_error(0, "").is_none());
    assert_eq!(
        ws_error(10001, "timeout").unwrap().code(),
        ErrorCode::network_timeout()
    );
}

#[test]
fn detail_is_kept_beside_the_message() {
    let err = OpenImError::args("bad input").with_detail("field x");
    assert_eq!(err.code(), ErrorCode::args());
    assert_eq!(err.message(), "bad input");
    assert_eq!(err.detail(), Some("field x"));
    assert_eq!(err.category(), ErrorCategory::Common);
    assert_eq!(ErrorCode::from_i32(10002), ErrorCode::args());
    assert_eq!(ErrorCode::args().as_i32(), 10002);
}

#[test]
fn empty_values_are_reported_by_field() {
    assert!(ensure_not_empty("x", "name").is_ok());
    let err = ensure_not_empty("", "name").unwrap_err();
    assert_eq!(err.display(), "10002: name is empty");
}

#[test]
fn raw_numbers_convert_to_codes() {
    let code: ErrorCode = 10401.into();
    assert_eq!(code, ErrorCode::group_type());
    assert_eq!(ErrorCode::from(59999).as_i32(), 59999);
}
