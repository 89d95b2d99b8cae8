use openim::protocol::{
    compress_payload, decompress_payload, gzip_compress, gzip_decompress,
    msg_incr_for, operation_id_from, GeneralWsReq, GetMaxSeqReq, RequestPagination, WsReqIdentifier,
};

#[test]
fn msg_incr_keeps_go_prefix_shape() {
    let msg_incr = msg_incr_for("u1", &operation_id_from(1_700_000_000_000, 1));

    assert!(msg_incr.starts_with("u1_rust_"));
}

#[test]
fn operation_ids_carry_time_and_sequence() {
    assert_eq!(operation_id_from(1_700_000_000_123, 42), "rust_1700000000123_42");
    assert_eq!(msg_incr_for("u9", "op"), "u9_op");
}

#[test]
fn request_frames_start_without_token() {
    let req = GeneralWsReq::new(WsReqIdentifier::GetNewestSeq, "u1", "op1", "u1_op1", vec![1, 2]);
    assert_eq!(req.req_identifier, 1001);
    assert_eq!(req.token, "");
    assert_eq!(req.send_id, "u1");
    assert_eq!(req.msg_incr, "u1_op1");
    assert_eq!(req.data, vec![1, 2]);
    assert_eq!(WsReqIdentifier::PushMsg.as_i32(), 2001);
    assert_eq!(GetMaxSeqReq::default().user_id, "");
    assert_eq!(
        RequestPagination {
            page_number: 1,
            show_number: 200
        }
        .show_number,
        200
    );
}

#[test]
fn gzip_round_trips_json_payload() {
    let payload = br#"{"reqIdentifier":1001,"data":"CgJ1MQ=="}"#;
    let compressed = gzip_compress(payload).unwrap();
    let decompressed = gzip_decompress(&compressed).unwrap();
    assert_eq!(decompressed, payload);
}

#[test]
fn payloads_are_compressed_only_when_asked() {
    let payload = b"frame".to_vec();
    assert_eq!(compress_payload(payload.clone(), false).unwrap(), payload);
    let compressed = compress_payload(payload.clone(), true).unwrap();
    assert_ne!(compressed, payload);
    assert_eq!(&compressed[..2], &[0x1f, 0x8b]);
    assert_eq!(decompress_payload(&compressed, true).unwrap(), payload);
    assert_eq!(decompress_payload(&payload, false).unwrap(), payload);
}

#[test]
fn corrupt_gzip_is_a_decompression_error() {
    let err = decompress_payload(b"not gzip", true).unwrap_err();
    assert_eq!(err.code().as_i32(), 10201);
}
