use openim::protocol::{GeneralWsResp, WsReqIdentifier};
use openim::transport::{
    ensure_success_response, heartbeat_ping_text, route_envelope, text_heartbeat_frame,
    text_pong_response, HeartbeatConfig, PendingRequests, ReconnectPolicy, TextHeartbeatFrame,
    TransportConfig, TransportEvent, wait_step, WaitStep, order_push_messages,
    IncomingTransportMessage,
};

fn response(msg_incr: &str, err_code: i32, err_msg: &str) -> GeneralWsResp {
    GeneralWsResp {
        req_identifier: WsReqIdentifier::GetNewestSeq.as_i32(),
        err_code,
        err_msg: err_msg.to_string(),
        msg_incr: msg_incr.to_string(),
        operation_id: "op1".to_string(),
        data: Vec::new(),
    }
}

#[test]
fn connect_url_uses_js_encoder_branch_and_gzip() {
    let config = TransportConfig::new("ws://example.com/msg_gateway", "u1", "token", 5, "op1");

    let url = config.connect_url().unwrap();
    let query = url.split_once('?').unwrap().1;

    assert!(query.contains("sendID=u1"));
    assert!(query.contains("token=token"));
    assert!(query.contains("platformID=5"));
    assert!(query.contains("operationID=op1"));
    assert!(query.contains("sdkType=js"));
    assert!(query.contains("compression=gzip"));
    assert!(query.contains("isMsgResp=true"));
}

#[test]
fn connect_url_rejects_unparsable_addresses() {
    let config = TransportConfig::new("not a url", "u1", "token", 5, "op1");
    let err = config.connect_url().unwrap_err();
    assert_eq!(err.code().as_i32(), 10002);
    assert_eq!(err.message(), "ws_addr must be a valid ws:// or wss:// URL");
    let http = TransportConfig::new("http://example.com", "u1", "token", 5, "op1");
    assert!(http
        .connect_url()
        .unwrap()
        .starts_with("http://example.com/?sendID=u1&token=token"));
}

#[test]
fn text_ping_is_answered_as_text_pong() {
    assert_eq!(
        text_pong_response(r#"{"type":"ping","operationID":"op1"}"#).unwrap(),
        Some(r#"{"operationID":"op1","type":"pong"}"#.to_string())
    );
    assert_eq!(text_pong_response(r#"{"type":"pong"}"#).unwrap(), None);
}

#[test]
fn heartbeat_frames_are_told_apart() {
    assert_eq!(heartbeat_ping_text(), r#"{"type":"ping"}"#);
    assert_eq!(
        text_heartbeat_frame(r#"{"type":"pong"}"#).unwrap(),
        Some(TextHeartbeatFrame::Pong)
    );
    assert_eq!(text_heartbeat_frame(r#"{"type":"other"}"#).unwrap(), None);
    assert_eq!(text_heartbeat_frame("not json").unwrap(), None);
}

#[test]
fn pending_request_routes_response_once() {
    let mut pending = PendingRequests::default();
    pending.register_at("u1-1", 1000);

    let response = response("u1-1", 0, "");

    assert!(matches!(
        route_envelope(response.clone(), &mut pending),
        TransportEvent::Response(_)
    ));
    assert!(matches!(
        route_envelope(response, &mut pending),
        TransportEvent::Push(_)
    ));
}

#[test]
fn pending_request_expiry_removes_timed_out_items() {
    let mut pending = PendingRequests::default();
    pending.register_at("old", 1000);
    pending.register_at("new", 9000);

    let expired = pending.expire_at(12000, 5000);

    assert_eq!(expired, vec!["old".to_string()]);
    assert!(!pending.contains("old"));
    assert!(pending.contains("new"));
}

#[test]
fn pending_requests_resolve_and_clear() {
    let mut pending = PendingRequests::new();
    assert!(pending.is_empty());
    pending.register_at("a", 1);
    pending.register_at("a", 2);
    pending.register_at("b", 3);
    assert_eq!(pending.len(), 2);
    assert!(pending.resolve("a"));
    assert!(!pending.resolve("a"));
    pending.clear();
    assert!(pending.is_empty());
}

#[test]
fn reconnect_policy_uses_capped_backoff() {
    let policy = ReconnectPolicy {
        max_attempts: 3,
        initial_delay: 100,
        max_delay: 250,
    };

    assert_eq!(policy.delay_for_attempt(1), Some(100));
    assert_eq!(policy.delay_for_attempt(2), Some(200));
    assert_eq!(policy.delay_for_attempt(3), Some(250));
    assert_eq!(policy.delay_for_attempt(4), None);
}

#[test]
fn default_policies_match_the_sdk_defaults() {
    let policy = ReconnectPolicy::default();
    assert_eq!(policy.max_attempts, 5);
    assert_eq!(policy.delay_for_attempt(0), None);
    assert_eq!(policy.delay_for_attempt(1), Some(300));
    assert_eq!(policy.delay_for_attempt(5), Some(4800));
    let heartbeat = HeartbeatConfig::default();
    assert_eq!(heartbeat.interval, 30_000);
    assert_eq!(heartbeat.timeout, 10_000);
    let unlimited = ReconnectPolicy {
        max_attempts: 0,
        initial_delay: 1,
        max_delay: 1000,
    };
    assert_eq!(unlimited.delay_for_attempt(40), Some(1000));
}

#[test]
fn failed_response_becomes_an_error() {
    assert!(ensure_success_response(&response("x", 0, "")).is_ok());
    let err = ensure_success_response(&response("x", 1004, "failed")).unwrap_err();
    assert_eq!(err.code().as_i32(), 1004);
    assert_eq!(
        err.message(),
        "websocket response error: identifier=1001 code=1004 msg=failed"
    );
}

#[test]
fn connect_ack_with_error_code_is_refused() {
    assert!(openim::transport::ensure_connect_ack(0, "", "").is_ok());
    let err = openim::transport::ensure_connect_ack(1501, "token expired", "expired at 10").unwrap_err();
    assert_eq!(err.code().as_i32(), 1501);
    assert_eq!(
        err.message(),
        "websocket auth failed: code=1501 msg=token expired detail=expired at 10"
    );
}

#[test]
fn waiting_request_keeps_other_frames() {
    let mine = response("u1-1", 0, "");
    let other = response("u1-2", 0, "");
    assert_eq!(
        wait_step(TransportEvent::Response(mine.clone()), "u1-1"),
        WaitStep::Answered(mine)
    );
    assert_eq!(
        wait_step(TransportEvent::Response(other.clone()), "u1-1"),
        WaitStep::Keep(TransportEvent::Response(other.clone()))
    );
    assert_eq!(
        wait_step(TransportEvent::Push(other.clone()), "u1-1"),
        WaitStep::Keep(TransportEvent::Push(other))
    );
    assert_eq!(
        wait_step(
            TransportEvent::Disconnected {
                reason: "bye".to_string()
            },
            "u1-1"
        ),
        WaitStep::Closed {
            reason: "bye".to_string()
        }
    );
    assert_eq!(wait_step(TransportEvent::HeartbeatPong, "u1-1"), WaitStep::Skip);
}

#[test]
fn attempts_are_limited_unless_unlimited() {
    let limited = ReconnectPolicy {
        max_attempts: 2,
        initial_delay: 1,
        max_delay: 1,
    };
    assert!(limited.allows_attempt(2));
    assert!(!limited.allows_attempt(3));
    let unlimited = ReconnectPolicy {
        max_attempts: 0,
        ..limited
    };
    assert!(unlimited.allows_attempt(1000));
}

fn pushed(client_msg_id: &str, seq: i64, send_time: i64) -> IncomingTransportMessage {
    IncomingTransportMessage {
        send_id: "u2".to_string(),
        recv_id: "u1".to_string(),
        group_id: String::new(),
        client_msg_id: client_msg_id.to_string(),
        server_msg_id: format!("server-{client_msg_id}"),
        session_type: 1,
        content_type: 101,
        content_json: r#"{"content":"hello"}"#.to_string(),
        seq,
        send_time,
        create_time: 10,
        status: 2,
        is_read: false,
        attached_info: "{}".to_string(),
        ex: String::new(),
    }
}

#[test]
fn push_messages_keep_a_single_message() {
    let messages = order_push_messages(vec![vec![pushed("client-1", 2, 20)]]);

    assert_eq!(messages.len(), 1);
    assert_eq!(messages[0].send_id, "u2");
    assert_eq!(messages[0].recv_id, "u1");
    assert_eq!(messages[0].content_json, r#"{"content":"hello"}"#);
    assert_eq!(messages[0].content_type, 101);
}

#[test]
fn push_messages_are_ordered_by_seq_time_and_client_id() {
    let messages = order_push_messages(vec![
        vec![pushed("c", 3, 5), pushed("b", 1, 9)],
        vec![],
        vec![pushed("a", 1, 9), pushed("z", 1, 2), pushed("c", 3, 5)],
    ]);

    let keys: Vec<(i64, i64, &str)> = messages
        .iter()
        .map(|m| (m.seq, m.send_time, m.client_msg_id.as_str()))
        .collect();
    assert_eq!(
        keys,
        vec![(1, 2, "z"), (1, 9, "a"), (1, 9, "b"), (3, 5, "c"), (3, 5, "c")]
    );
}

#[test]
fn no_push_groups_give_no_messages() {
    assert!(order_push_messages(Vec::new()).is_empty());
}
