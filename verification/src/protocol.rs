//! The websocket envelope of the message gateway: request identifiers, the
//! request and response frames, and the operation and message-increment
//! identifiers.
use std::collections::HashMap;

use vstd::prelude::*;

use crate::errors::{error_of, OpenImError};
use crate::text::{concat2, decimal, owned, push_decimal};

verus! {

pub const SDK_TYPE_JS: &'static str = "js";

pub const SDK_TYPE_GO: &'static str = "go";

pub const GZIP_COMPRESSION: &'static str = "gzip";

pub const PHASE1_SDK_VERSION: &'static str = "rust-phase1-poc";

/// What a websocket frame asks for.
#[derive(Debug, Clone, Copy, PartialEq, Eq, Structural)]
pub enum WsReqIdentifier {
    GetNewestSeq,
    PullMsgByRange,
    SendMsg,
    SendSignalMsg,
    PullMsgBySeqList,
    GetConvMaxReadSeq,
    PullConvLastMessage,
    PushMsg,
    KickOnlineMsg,
    LogoutMsg,
    SetBackgroundStatus,
    SubUserOnlineStatus,
}

impl WsReqIdentifier {
    /// The identifier's number on the wire.
    pub open spec fn spec_id(self) -> i32 {
        match self {
            WsReqIdentifier::GetNewestSeq => 1001,
            WsReqIdentifier::PullMsgByRange => 1002,
            WsReqIdentifier::SendMsg => 1003,
            WsReqIdentifier::SendSignalMsg => 1004,
            WsReqIdentifier::PullMsgBySeqList => 1005,
            WsReqIdentifier::GetConvMaxReadSeq => 1006,
            WsReqIdentifier::PullConvLastMessage => 1007,
            WsReqIdentifier::PushMsg => 2001,
            WsReqIdentifier::KickOnlineMsg => 2002,
            WsReqIdentifier::LogoutMsg => 2003,
            WsReqIdentifier::SetBackgroundStatus => 2004,
            WsReqIdentifier::SubUserOnlineStatus => 2005,
        }
    }

    pub fn as_i32(self) -> (r: i32)
        ensures
            r == self.spec_id(),
    {
        match self {
            WsReqIdentifier::GetNewestSeq => 1001,
            WsReqIdentifier::PullMsgByRange => 1002,
            WsReqIdentifier::SendMsg => 1003,
            WsReqIdentifier::SendSignalMsg => 1004,
            WsReqIdentifier::PullMsgBySeqList => 1005,
            WsReqIdentifier::GetConvMaxReadSeq => 1006,
            WsReqIdentifier::PullConvLastMessage => 1007,
            WsReqIdentifier::PushMsg => 2001,
            WsReqIdentifier::KickOnlineMsg => 2002,
            WsReqIdentifier::LogoutMsg => 2003,
            WsReqIdentifier::SetBackgroundStatus => 2004,
            WsReqIdentifier::SubUserOnlineStatus => 2005,
        }
    }
}

/// A request frame.
#[derive(Debug, Clone, PartialEq, Eq)]
pub struct GeneralWsReq {
    pub req_identifier: i32,
    pub token: String,
    pub send_id: String,
    pub operation_id: String,
    pub msg_incr: String,
    pub data: Vec<u8>,
}

impl GeneralWsReq {
    /// A request frame without a token.
    pub fn new(
        req_identifier: WsReqIdentifier,
        send_id: &str,
        operation_id: &str,
        msg_incr: &str,
        data: Vec<u8>,
    ) -> (r: GeneralWsReq)
        ensures
            r.req_identifier == req_identifier.spec_id(),
            r.token@.len() == 0,
            r.send_id@ == send_id@,
            r.operation_id@ == operation_id@,
            r.msg_incr@ == msg_incr@,
            r.data@ == data@,
    {
        GeneralWsReq {
            req_identifier: req_identifier.as_i32(),
            token: String::new(),
            send_id: owned(send_id),
            operation_id: owned(operation_id),
            msg_incr: owned(msg_incr),
            data,
        }
    }
}

/// A response or push frame.
#[derive(Debug, Clone, PartialEq, Eq)]
pub struct GeneralWsResp {
    pub req_identifier: i32,
    pub err_code: i32,
    pub err_msg: String,
    pub msg_incr: String,
    pub operation_id: String,
    pub data: Vec<u8>,
}

/// The operation id made of a time in milliseconds and a sequence number:
/// `rust_<millis>_<seq>`.
pub open spec fn operation_id_text(millis: u64, seq: u64) -> Seq<char> {
    "rust_"@ + decimal(millis as nat) + "_"@ + decimal(seq as nat)
}

/// The operation id for a time and a sequence number.
pub fn operation_id_from(millis: u64, seq: u64) -> (r: String)
    ensures
        r@ == operation_id_text(millis, seq),
{
    let mut id = owned("rust_");
    push_decimal(&mut id, millis);
    id.append("_");
    push_decimal(&mut id, seq);
    id
}

/// The message increment of a user's request: `<user>_<operation id>`.
pub fn msg_incr_for(user_id: &str, operation_id: &str) -> (r: String)
    ensures
        r@ == user_id@ + "_"@ + operation_id@,
{
    let head = concat2(user_id, "_");
    concat2(head.as_str(), operation_id)
}

/// The request for the newest sequence numbers of a user's conversations.
#[derive(Debug, Clone, PartialEq, Eq, Default)]
pub struct GetMaxSeqReq {
    pub user_id: String,
}

/// The newest and oldest sequence number of each conversation.
#[derive(Debug, Clone, PartialEq, Eq, Default)]
pub struct GetMaxSeqResp {
    pub max_seqs: HashMap<String, i64>,
    pub min_seqs: HashMap<String, i64>,
}

/// A page request as the gateway's protocol carries it.
#[derive(Debug, Clone, Copy, PartialEq, Eq, Default)]
pub struct RequestPagination {
    pub page_number: i32,
    pub show_number: i32,
}


/// What `flate2`'s `GzEncoder` at the default level makes of the bytes
/// (all of them written, then `finish`): the gzip stream, or the text of
/// the I/O error.
pub uninterp spec fn gzip_of(data: Seq<u8>) -> Result<Seq<u8>, Seq<char>>;

/// What `flate2`'s `GzDecoder` read to the end makes of the bytes: the
/// decoded bytes, or the text of the I/O error (a corrupt stream).
pub uninterp spec fn gunzip(data: Seq<u8>) -> Result<Seq<u8>, Seq<char>>;

/// Writes the bytes into a `flate2::write::GzEncoder` over a `Vec` at
/// `Compression::default()` and finishes it; an I/O error is rendered as
/// text. Trusted: the result is `gzip_of` of the bytes.
#[verifier::external_body]
fn gzip_encode(data: &[u8]) -> (r: Result<Vec<u8>, String>)
    ensures
        r matches Ok(v) ==> (gzip_of(data@) matches Ok(z) && z == v@),
        r matches Err(t) ==> (gzip_of(data@) matches Err(u) && u == t@),
{
    let mut encoder = flate2::write::GzEncoder::new(Vec::new(), flate2::Compression::default());
    std::io::Write::write_all(&mut encoder, data).map_err(|err| err.to_string())?;
    encoder.finish().map_err(|err| err.to_string())
}

/// Reads a `flate2::read::GzDecoder` over the bytes to the end; an I/O
/// error is rendered as text. Trusted: the result is `gunzip` of the bytes.
#[verifier::external_body]
fn gzip_decode(data: &[u8]) -> (r: Result<Vec<u8>, String>)
    ensures
        r matches Ok(v) ==> (gunzip(data@) matches Ok(z) && z == v@),
        r matches Err(t) ==> (gunzip(data@) matches Err(u) && u == t@),
{
    let mut decoded = Vec::new();
    std::io::Read::read_to_end(&mut flate2::read::GzDecoder::new(data), &mut decoded).map_err(|err| err.to_string())?;
    Ok(decoded)
}

/// The gzip stream of the bytes; an encoder failure is an internal error.
pub fn gzip_compress(data: &[u8]) -> (r: Result<Vec<u8>, OpenImError>)
    ensures
        match gzip_of(data@) {
            Ok(z) => r matches Ok(v) && v@ == z,
            Err(t) => r matches Err(e) && e@ == error_of(10006, t),
        },
{
    match gzip_encode(data) {
        Ok(v) => Ok(v),
        Err(t) => Err(OpenImError::sdk_internal(t.as_str())),
    }
}

/// The bytes a gzip stream holds; a corrupt stream is a decompression
/// error.
pub fn gzip_decompress(data: &[u8]) -> (r: Result<Vec<u8>, OpenImError>)
    ensures
        match gunzip(data@) {
            Ok(d) => r matches Ok(v) && v@ == d,
            Err(t) => r matches Err(e) && e@ == error_of(10201, t),
        },
{
    match gzip_decode(data) {
        Ok(v) => Ok(v),
        Err(t) => Err(OpenImError::msg_decompression(t.as_str())),
    }
}

/// The bytes sent for an encoded frame: gzip-compressed when asked, else
/// as they are.
pub fn compress_payload(payload: Vec<u8>, compression: bool) -> (r: Result<Vec<u8>, OpenImError>)
    ensures
        !compression ==> (r matches Ok(v) && v@ == payload@),
        compression ==> match gzip_of(payload@) {
            Ok(z) => r matches Ok(v) && v@ == z,
            Err(t) => r matches Err(e) && e@ == error_of(10006, t),
        },
{
    if compression {
        gzip_compress(payload.as_slice())
    } else {
        Ok(payload)
    }
}

fn copy_bytes(bytes: &[u8]) -> (r: Vec<u8>)
    ensures
        r@ == bytes@,
{
    let mut out: Vec<u8> = Vec::new();
    let mut i: usize = 0;
    while i < bytes.len()
        invariant
            i <= bytes@.len(),
            out@ == bytes@.take(i as int),
        decreases bytes.len() - i,
    {
        out.push(bytes[i]);
        assert(bytes@.take(i + 1) =~= bytes@.take(i as int).push(bytes@[i as int]));
        i = i + 1;
    }
    assert(bytes@.take(i as int) =~= bytes@);
    out
}

/// The bytes of a received frame: decompressed when asked, else as they
/// are.
pub fn decompress_payload(payload: &[u8], compression: bool) -> (r: Result<Vec<u8>, OpenImError>)
    ensures
        !compression ==> (r matches Ok(v) && v@ == payload@),
        compression ==> match gunzip(payload@) {
            Ok(d) => r matches Ok(v) && v@ == d,
            Err(t) => r matches Err(e) && e@ == error_of(10201, t),
        },
{
    if compression {
        gzip_decompress(payload)
    } else {
        Ok(copy_bytes(payload))
    }
}

} // verus!
