//! Rows of the local SQLite database: the table of each conversation's
//! messages, quoting of identifiers, and the conversion between rows and
//! domain values (the JSON columns are parsed and written by the caller).
use vstd::prelude::*;

use crate::domain::conversation::ConversationInfo;
use crate::domain::message::{ChatMessage, MessageContent, MessageSnapshot};
use crate::errors::{empty_message, error_of, ErrorCode, OpenImError};
use crate::storage::VersionRecord;
use crate::text::{concat2, has_prefix, owned, starts_with};
use crate::types::{MessageContentType, MessageStatus, Pagination, SessionType};

verus! {

pub const LOCAL_CONVERSATIONS_TABLE: &'static str = "local_conversations";

pub const CHAT_LOGS_TABLE_PREFIX: &'static str = "chat_logs_";

/// The table that holds a conversation's messages.
pub fn chat_logs_table_name(conversation_id: &str) -> (r: Result<String, OpenImError>)
    ensures
        r is Ok <==> conversation_id@.len() > 0,
        r matches Err(e) ==> e@ == error_of(10002, empty_message("conversation_id"@)),
        r matches Ok(t) ==> t@ == "chat_logs_"@ + conversation_id@,
{
    if conversation_id.is_empty() {
        return Err(OpenImError::with_message(ErrorCode::args(), concat2("conversation_id", " is empty")));
    }
    Ok(concat2(CHAT_LOGS_TABLE_PREFIX, conversation_id))
}

/// `s` with each double quote doubled.
pub open spec fn doubled_quotes(s: Seq<char>) -> Seq<char>
    decreases s.len(),
{
    if s.len() == 0 {
        Seq::empty()
    } else {
        doubled_quotes(s.drop_last()) + if s.last() == '"' {
            seq!['"', '"']
        } else {
            seq![s.last()]
        }
    }
}

/// An SQL identifier in double quotes, with its own double quotes doubled.
pub fn quoted_identifier(identifier: &str) -> (r: String)
    ensures
        r@ == seq!['"'] + doubled_quotes(identifier@) + seq!['"'],
{
    proof {
        reveal_strlit("\"");
        reveal_strlit("\"\"");
    }
    let n = identifier.unicode_len();
    let mut out = owned("\"");
    let mut i: usize = 0;
    while i < n
        invariant
            n == identifier@.len(),
            i <= n,
            out@ == seq!['"'] + doubled_quotes(identifier@.take(i as int)),
            "\""@ == seq!['"'],
            "\"\""@ == seq!['"', '"'],
        decreases n - i,
    {
        let c = identifier.get_char(i);
        assert(identifier@.take(i + 1).drop_last() =~= identifier@.take(i as int));
        if c == '"' {
            out.append("\"\"");
        } else {
            let piece = identifier.substring_char(i, i + 1);
            assert(piece@ =~= seq![c]);
            out.append(piece);
        }
        assert(out@ =~= seq!['"'] + doubled_quotes(identifier@.take(i + 1)));
        i = i + 1;
    }
    assert(identifier@.take(n as int) =~= identifier@);
    out.append("\"");
    out
}

/// The group of a stored message, read back from its conversation id:
/// the id without its `g_` or `sg_` prefix for group chats, none otherwise.
pub open spec fn group_of_conversation(conversation_id: Seq<char>, session_type: SessionType) -> Seq<char> {
    match session_type {
        SessionType::WriteGroup => if has_prefix(conversation_id, "g_"@) {
            conversation_id.subrange(2, conversation_id.len() as int)
        } else {
            conversation_id
        },
        SessionType::ReadGroup => if has_prefix(conversation_id, "sg_"@) {
            conversation_id.subrange(3, conversation_id.len() as int)
        } else {
            conversation_id
        },
        _ => Seq::empty(),
    }
}

pub fn group_id_from_conversation(conversation_id: &str, session_type: SessionType) -> (r: String)
    ensures
        r@ == group_of_conversation(conversation_id@, session_type),
{
    proof {
        reveal_strlit("g_");
        reveal_strlit("sg_");
    }
    match session_type {
        SessionType::WriteGroup => {
            if starts_with(conversation_id, "g_") {
                owned(conversation_id.substring_char(2, conversation_id.unicode_len()))
            } else {
                owned(conversation_id)
            }
        },
        SessionType::ReadGroup => {
            if starts_with(conversation_id, "sg_") {
                owned(conversation_id.substring_char(3, conversation_id.unicode_len()))
            } else {
                owned(conversation_id)
            }
        },
        _ => String::new(),
    }
}

/// A stored text that may be empty: empty means none.
pub fn non_empty(value: String) -> (r: Option<String>)
    ensures
        value@.len() == 0 ==> r is None,
        value@.len() > 0 ==> r == Some(value),
{
    if value.as_str().is_empty() {
        None
    } else {
        Some(value)
    }
}

/// The columns of a stored message, besides its JSON content.
#[derive(Debug, Clone, PartialEq, Eq)]
pub struct ChatMessageRow {
    pub client_msg_id: String,
    pub server_msg_id: String,
    pub send_id: String,
    pub recv_id: String,
    pub session_type: i32,
    pub content_type: i32,
    pub is_read: bool,
    pub status: i32,
    pub seq: i64,
    pub send_time: i64,
    pub create_time: i64,
    pub attached_info: String,
    pub ex: String,
    pub local_ex: String,
}

/// The error of a stored value that the database cannot hold or give back.
pub open spec fn storage_error(message: Seq<char>) -> crate::errors::ErrorView {
    error_of(10006, message)
}

/// The error of a JSON column that does not parse.
pub open spec fn json_column_error(detail: Seq<char>) -> crate::errors::ErrorView {
    error_of(10006, "sqlite json error: "@ + detail)
}

/// Whether a number is the id of a content type.
pub open spec fn is_content_type_id(v: i32) -> bool {
    (101 <= v <= 110) || v == 113 || v == 114 || v == 115 || v == 117 || v == 118
}

/// What is wrong with a message row and its parsed content, in the order
/// the checks run: session type, content type, status, then the content.
pub open spec fn message_row_error(row: ChatMessageRow, content: Result<MessageContent, String>) -> Option<
    crate::errors::ErrorView,
> {
    if !(1 <= row.session_type <= 4) {
        Some(storage_error("sqlite message has invalid session_type"@))
    } else if !is_content_type_id(row.content_type) {
        Some(storage_error("sqlite message has invalid content_type"@))
    } else if !(1 <= row.status <= 5) {
        Some(storage_error("sqlite message has invalid status"@))
    } else {
        match content {
            Err(detail) => Some(json_column_error(detail@)),
            Ok(_) => None,
        }
    }
}

/// `m` is the message that a valid row of a conversation stands for: the
/// row's columns, the conversation, the group read back from it, the parsed
/// content, and revoked exactly when the status says deleted.
pub open spec fn message_of_row(row: ChatMessageRow, content: MessageContent, conversation_id: Seq<char>, m: ChatMessage) -> bool {
    &&& m.client_msg_id@ == row.client_msg_id@
    &&& (row.server_msg_id@.len() == 0 ==> m.server_msg_id is None)
    &&& (row.server_msg_id@.len() > 0 ==> m.server_msg_id == Some(row.server_msg_id))
    &&& m.conversation_id@ == conversation_id
    &&& m.send_id == row.send_id
    &&& m.recv_id == row.recv_id
    &&& m.group_id@ == group_of_conversation(conversation_id, m.session_type)
    &&& m.session_type.spec_id() == row.session_type
    &&& m.content_type.spec_id() == row.content_type
    &&& m.content == content
    &&& m.is_read == row.is_read
    &&& m.status.spec_id() == row.status
    &&& m.seq == row.seq
    &&& m.send_time == row.send_time
    &&& m.create_time == row.create_time
    &&& m.attached_info == row.attached_info
    &&& m.ex == row.ex
    &&& m.local_ex == row.local_ex
    &&& m.revoked == (row.status == 4)
}

/// The message a row of a conversation's table stands for, given the
/// row's content column as parsed by the caller (or the parse error's text).
pub fn message_from_row(row: ChatMessageRow, content: Result<MessageContent, String>, conversation_id: &str) -> (r:
    Result<ChatMessage, OpenImError>)
    ensures
        r is Ok <==> message_row_error(row, content) is None,
        r matches Err(e) ==> message_row_error(row, content) == Some(e@),
        r matches Ok(m) ==> content matches Ok(c) && message_of_row(row, c, conversation_id@, m),
{
    let session_type = match SessionType::from_i32(row.session_type) {
        Some(t) => t,
        None => {
            return Err(OpenImError::sdk_internal("sqlite message has invalid session_type"));
        },
    };
    let content_type = match MessageContentType::from_i32(row.content_type) {
        Some(t) => t,
        None => {
            return Err(OpenImError::sdk_internal("sqlite message has invalid content_type"));
        },
    };
    let status = match MessageStatus::from_i32(row.status) {
        Some(s) => s,
        None => {
            return Err(OpenImError::sdk_internal("sqlite message has invalid status"));
        },
    };
    let content = match content {
        Ok(c) => c,
        Err(detail) => {
            return Err(
                OpenImError::with_message(
                    ErrorCode::sdk_internal(),
                    concat2("sqlite json error: ", detail.as_str()),
                ),
            );
        },
    };
    let revoked = match status {
        MessageStatus::HasDeleted => true,
        _ => false,
    };
    Ok(
        ChatMessage {
            client_msg_id: row.client_msg_id,
            server_msg_id: non_empty(row.server_msg_id),
            conversation_id: owned(conversation_id),
            send_id: row.send_id,
            recv_id: row.recv_id,
            group_id: group_id_from_conversation(conversation_id, session_type),
            session_type,
            content_type,
            content,
            is_read: row.is_read,
            status,
            seq: row.seq,
            send_time: row.send_time,
            create_time: row.create_time,
            attached_info: row.attached_info,
            ex: row.ex,
            local_ex: row.local_ex,
            revoked,
        },
    )
}

/// The columns a message is stored with, besides its JSON content: no
/// server id is stored as an empty one.
pub fn message_row(message: &ChatMessage) -> (r: ChatMessageRow)
    ensures
        r.client_msg_id == message.client_msg_id,
        message.server_msg_id matches Some(s) ==> r.server_msg_id == s,
        message.server_msg_id is None ==> r.server_msg_id@.len() == 0,
        r.send_id == message.send_id,
        r.recv_id == message.recv_id,
        r.session_type == message.session_type.spec_id(),
        r.content_type == message.content_type.spec_id(),
        r.is_read == message.is_read,
        r.status == message.status.spec_id(),
        r.seq == message.seq,
        r.send_time == message.send_time,
        r.create_time == message.create_time,
        r.attached_info == message.attached_info,
        r.ex == message.ex,
        r.local_ex == message.local_ex,
{
    ChatMessageRow {
        client_msg_id: message.client_msg_id.clone(),
        server_msg_id: match &message.server_msg_id {
            Some(s) => s.clone(),
            None => String::new(),
        },
        send_id: message.send_id.clone(),
        recv_id: message.recv_id.clone(),
        session_type: message.session_type.as_i32(),
        content_type: message.content_type.as_i32(),
        is_read: message.is_read,
        status: message.status.as_i32(),
        seq: message.seq,
        send_time: message.send_time,
        create_time: message.create_time,
        attached_info: message.attached_info.clone(),
        ex: message.ex.clone(),
        local_ex: message.local_ex.clone(),
    }
}

/// The columns of a stored conversation; its latest message is JSON text,
/// empty for none.
#[derive(Debug, Clone, PartialEq, Eq)]
pub struct ConversationRow {
    pub owner_user_id: String,
    pub conversation_id: String,
    pub conversation_type: i32,
    pub user_id: String,
    pub group_id: String,
    pub show_name: String,
    pub face_url: String,
    pub recv_msg_opt: i32,
    pub unread_count: i64,
    pub latest_msg: String,
    pub latest_msg_send_time: i64,
    pub draft_text: String,
    pub draft_text_time: i64,
    pub is_pinned: bool,
    pub max_seq: i64,
    pub min_seq: i64,
    pub ex: String,
}

/// What is wrong with a conversation row, in the order the checks run: its
/// type, its unread count (which must fit an unsigned 32-bit count), then
/// its latest message when there is one.
pub open spec fn conversation_row_error(row: ConversationRow, latest: Result<MessageSnapshot, String>) -> Option<
    crate::errors::ErrorView,
> {
    if !(1 <= row.conversation_type <= 4) {
        Some(storage_error("sqlite conversation has invalid conversation_type"@))
    } else if !(0 <= row.unread_count <= u32::MAX) {
        Some(storage_error("sqlite unread_count is negative"@))
    } else if row.latest_msg@.len() > 0 && latest is Err {
        Some(json_column_error(latest->Err_0@))
    } else {
        None
    }
}

/// `c` is the conversation a valid row stands for, with the latest message
/// parsed from its text (none for empty text).
pub open spec fn conversation_of_row(row: ConversationRow, latest: Result<MessageSnapshot, String>, c: ConversationInfo) -> bool {
    &&& c.owner_user_id == row.owner_user_id
    &&& c.conversation_id == row.conversation_id
    &&& c.conversation_type.spec_id() == row.conversation_type
    &&& c.user_id == row.user_id
    &&& c.group_id == row.group_id
    &&& c.show_name == row.show_name
    &&& c.face_url == row.face_url
    &&& c.recv_msg_opt == row.recv_msg_opt
    &&& c.unread_count == row.unread_count
    &&& (row.latest_msg@.len() == 0 ==> c.latest_message is None)
    &&& (row.latest_msg@.len() > 0 ==> (latest matches Ok(s) && c.latest_message == Some(s)))
    &&& c.latest_msg_send_time == row.latest_msg_send_time
    &&& c.draft_text == row.draft_text
    &&& c.draft_text_time == row.draft_text_time
    &&& c.is_pinned == row.is_pinned
    &&& c.max_seq == row.max_seq
    &&& c.min_seq == row.min_seq
    &&& c.ex == row.ex
}

/// The conversation a row stands for, given its latest-message text as
/// parsed by the caller (consulted only when the text is not empty).
pub fn conversation_from_row(row: ConversationRow, latest: Result<MessageSnapshot, String>) -> (r: Result<
    ConversationInfo,
    OpenImError,
>)
    ensures
        r is Ok <==> conversation_row_error(row, latest) is None,
        r matches Err(e) ==> conversation_row_error(row, latest) == Some(e@),
        r matches Ok(c) ==> conversation_of_row(row, latest, c),
{
    let conversation_type = match SessionType::from_i32(row.conversation_type) {
        Some(t) => t,
        None => {
            return Err(OpenImError::sdk_internal("sqlite conversation has invalid conversation_type"));
        },
    };
    if row.unread_count < 0 || row.unread_count > 0xffff_ffff {
        return Err(OpenImError::sdk_internal("sqlite unread_count is negative"));
    }
    let unread_count = row.unread_count as u32;
    let latest_message = if row.latest_msg.as_str().is_empty() {
        None
    } else {
        match latest {
            Ok(s) => Some(s),
            Err(detail) => {
                return Err(
                    OpenImError::with_message(
                        ErrorCode::sdk_internal(),
                        concat2("sqlite json error: ", detail.as_str()),
                    ),
                );
            },
        }
    };
    Ok(
        ConversationInfo {
            owner_user_id: row.owner_user_id,
            conversation_id: row.conversation_id,
            conversation_type,
            user_id: row.user_id,
            group_id: row.group_id,
            show_name: row.show_name,
            face_url: row.face_url,
            recv_msg_opt: row.recv_msg_opt,
            unread_count,
            latest_message,
            latest_msg_send_time: row.latest_msg_send_time,
            draft_text: row.draft_text,
            draft_text_time: row.draft_text_time,
            is_pinned: row.is_pinned,
            max_seq: row.max_seq,
            min_seq: row.min_seq,
            ex: row.ex,
        },
    )
}

/// The columns a conversation is stored with, besides its latest-message
/// JSON.
pub fn conversation_row(conversation: &ConversationInfo, latest_msg: String) -> (r: ConversationRow)
    ensures
        r.owner_user_id == conversation.owner_user_id,
        r.conversation_id == conversation.conversation_id,
        r.conversation_type == conversation.conversation_type.spec_id(),
        r.user_id == conversation.user_id,
        r.group_id == conversation.group_id,
        r.show_name == conversation.show_name,
        r.face_url == conversation.face_url,
        r.recv_msg_opt == conversation.recv_msg_opt,
        r.unread_count == conversation.unread_count,
        r.latest_msg == latest_msg,
        r.latest_msg_send_time == conversation.latest_msg_send_time,
        r.draft_text == conversation.draft_text,
        r.draft_text_time == conversation.draft_text_time,
        r.is_pinned == conversation.is_pinned,
        r.max_seq == conversation.max_seq,
        r.min_seq == conversation.min_seq,
        r.ex == conversation.ex,
{
    ConversationRow {
        owner_user_id: conversation.owner_user_id.clone(),
        conversation_id: conversation.conversation_id.clone(),
        conversation_type: conversation.conversation_type.as_i32(),
        user_id: conversation.user_id.clone(),
        group_id: conversation.group_id.clone(),
        show_name: conversation.show_name.clone(),
        face_url: conversation.face_url.clone(),
        recv_msg_opt: conversation.recv_msg_opt,
        unread_count: conversation.unread_count as i64,
        latest_msg,
        latest_msg_send_time: conversation.latest_msg_send_time,
        draft_text: conversation.draft_text.clone(),
        draft_text_time: conversation.draft_text_time,
        is_pinned: conversation.is_pinned,
        max_seq: conversation.max_seq,
        min_seq: conversation.min_seq,
        ex: conversation.ex.clone(),
    }
}

/// The version record a row of the version table stands for: absent
/// columns read as empty or zero, a negative version is refused, then the
/// id list (as decoded by the caller) is taken or its error passed on.
pub fn version_record_from_row(
    table_name: String,
    entity_id: String,
    version_id: Option<String>,
    version: Option<i64>,
    create_time: Option<i64>,
    uid_list: Result<Vec<String>, OpenImError>,
) -> (r: Result<VersionRecord, OpenImError>)
    ensures
        version matches Some(v) && v < 0 ==> (r matches Err(e) && e@ == storage_error(
            "sqlite version is negative"@,
        )),
        !(version matches Some(v) && v < 0) && uid_list is Err ==> (r matches Err(e) && uid_list matches Err(
            u,
        ) && e == u),
        r matches Ok(rec) ==> {
            &&& uid_list matches Ok(ids) && rec.uid_list == ids
            &&& rec.table_name == table_name
            &&& rec.entity_id == entity_id
            &&& (version_id matches Some(v) ==> rec.version_id == v)
            &&& (version_id is None ==> rec.version_id@.len() == 0)
            &&& rec.version == (match version {
                Some(v) => v as int,
                None => 0int,
            })
            &&& rec.create_time == (match create_time {
                Some(t) => t,
                None => 0,
            })
        },
        r is Ok <==> !(version matches Some(v) && v < 0) && uid_list is Ok,
{
    let version: i64 = match version {
        Some(v) => v,
        None => 0,
    };
    if version < 0 {
        return Err(OpenImError::sdk_internal("sqlite version is negative"));
    }
    let uid_list = match uid_list {
        Ok(ids) => ids,
        Err(e) => {
            return Err(e);
        },
    };
    Ok(
        VersionRecord {
            table_name,
            entity_id,
            version_id: match version_id {
                Some(v) => v,
                None => String::new(),
            },
            version: version as u64,
            create_time: match create_time {
                Some(t) => t,
                None => 0,
            },
            uid_list,
        },
    )
}

/// The version of a record as the database's signed integer; versions past
/// its range are refused.
pub fn stored_version(record: &VersionRecord) -> (r: Result<i64, OpenImError>)
    ensures
        r is Ok <==> record.version <= i64::MAX,
        r matches Ok(v) ==> v == record.version,
        r matches Err(e) ==> e@ == error_of(10002, "version exceeds sqlite integer range"@),
{
    if record.version > 0x7fff_ffff_ffff_ffff {
        return Err(OpenImError::args("version exceeds sqlite integer range"));
    }
    Ok(record.version as i64)
}

/// The limit and offset of a page of history: the normalized page size,
/// and the page number times it.
pub fn history_window(pagination: Pagination) -> (r: (i64, i64))
    ensures
        r.0 == pagination.spec_normalized().show_number,
        r.1 == pagination.spec_normalized().page_number * pagination.spec_normalized().show_number,
{
    let p = pagination.normalized();
    let limit = p.show_number as i64;
    let page = p.page_number as i64;
    proof {
        assert(0 <= page <= i32::MAX);
        assert(0 < limit <= i32::MAX);
        assert(page * limit <= 0x7fff_ffff * 0x7fff_ffff) by (nonlinear_arith)
            requires
                0 <= page <= 0x7fff_ffff,
                0 < limit <= 0x7fff_ffff,
        ;
    }
    (limit, page * limit)
}

} // verus!
