//! Chat messages: content, routing to a conversation, validation, and the
//! message store with send, receive, read, revoke, history and search.
use vstd::prelude::*;

use crate::domain::{
    apply_actions, apply_plan, distinct_sync_keys, lemma_listing_lists, lemma_scope_sync_merges, list_every, list_of,
    listing, listing_all, lists_scope, merge_synced, merges_items, summary_of, DomainSyncSummary,
};
use crate::errors::lemma_first_error_none;
use crate::errors::{
    empty_message, ensure_not_empty, ensure_pair, error_of, first_error, lemma_first_error_skip,
    pair_error, ErrorCode, ErrorView, OpenImError,
};
use crate::domain::file::FileDigest;
use crate::keyed::{Duplicate, Key, Keyed, KeyedStore, ListOrder};
use crate::sync::{diff_by, spec_diff, DiffOptions, SyncItem};
use crate::text::{
    concat2, concat3, contains_str, has_substring, lemma_lt_strict_total, lemma_pair_before, lemma_order_total, owned, pair_before,
    pair_before_exec, seq_le, seq_lt, spec_to_lowercase, str_eq, to_lowercase,
};
use crate::types::{paginate, spec_page, MessageContentType, MessageStatus, Pagination, SessionType};

verus! {

#[derive(Debug, Clone, PartialEq, Eq)]
pub struct PictureElem {
    pub source_url: String,
    pub snapshot_url: String,
    pub width: i32,
    pub height: i32,
    pub size: i64,
    pub image_type: String,
}

#[derive(Debug, Clone, PartialEq, Eq)]
pub struct FileElem {
    pub source_url: String,
    pub file_name: String,
    pub file_size: i64,
    pub file_type: String,
}

/// What a message carries.
#[derive(Debug, Clone, PartialEq, Eq)]
pub enum MessageContent {
    Text { content: String },
    Picture(PictureElem),
    File(FileElem),
}

/// Field-by-field equality of two contents.
pub open spec fn content_same(a: MessageContent, b: MessageContent) -> bool {
    match (a, b) {
        (MessageContent::Text { content: x }, MessageContent::Text { content: y }) => x@ == y@,
        (MessageContent::Picture(x), MessageContent::Picture(y)) => x.source_url@ == y.source_url@
            && x.snapshot_url@ == y.snapshot_url@ && x.width == y.width && x.height == y.height
            && x.size == y.size && x.image_type@ == y.image_type@,
        (MessageContent::File(x), MessageContent::File(y)) => x.source_url@ == y.source_url@
            && x.file_name@ == y.file_name@ && x.file_size == y.file_size && x.file_type@
            == y.file_type@,
        _ => false,
    }
}

fn content_equal(a: &MessageContent, b: &MessageContent) -> (r: bool)
    ensures
        r == content_same(*a, *b),
{
    match (a, b) {
        (MessageContent::Text { content: x }, MessageContent::Text { content: y }) => x.eq(y),
        (MessageContent::Picture(x), MessageContent::Picture(y)) => x.source_url.eq(&y.source_url)
            && x.snapshot_url.eq(&y.snapshot_url) && x.width == y.width && x.height == y.height
            && x.size == y.size && x.image_type.eq(&y.image_type),
        (MessageContent::File(x), MessageContent::File(y)) => x.source_url.eq(&y.source_url)
            && x.file_name.eq(&y.file_name) && x.file_size == y.file_size && x.file_type.eq(
            &y.file_type,
        ),
        _ => false,
    }
}

impl MessageContent {
    pub open spec fn spec_content_type(&self) -> MessageContentType {
        match self {
            MessageContent::Text { .. } => MessageContentType::Text,
            MessageContent::Picture(_) => MessageContentType::Picture,
            MessageContent::File(_) => MessageContentType::File,
        }
    }

    /// The text shown for the content: the text itself, a picture's source
    /// URL (its snapshot URL when the source is empty), or a file's name.
    pub open spec fn spec_summary(&self) -> Seq<char> {
        match self {
            MessageContent::Text { content } => content@,
            MessageContent::Picture(p) => if p.source_url@.len() == 0 {
                p.snapshot_url@
            } else {
                p.source_url@
            },
            MessageContent::File(f) => f.file_name@,
        }
    }

    /// What is wrong with the content, if anything.
    pub open spec fn spec_error(&self) -> Option<ErrorView> {
        match self {
            MessageContent::Text { content } => if content@.len() == 0 {
                Some(error_of(10002, empty_message("text_content"@)))
            } else {
                None
            },
            MessageContent::Picture(p) => if p.source_url@.len() == 0 && p.snapshot_url@.len() == 0 {
                Some(error_of(10002, "picture url is empty"@))
            } else {
                None
            },
            MessageContent::File(f) => if f.file_name@.len() == 0 {
                Some(error_of(10002, empty_message("file_name"@)))
            } else if f.file_size < 0 {
                Some(error_of(10002, "file_size is negative"@))
            } else {
                None
            },
        }
    }

    pub fn content_type(&self) -> (r: MessageContentType)
        ensures
            r == self.spec_content_type(),
    {
        match self {
            MessageContent::Text { .. } => MessageContentType::Text,
            MessageContent::Picture(_) => MessageContentType::Picture,
            MessageContent::File(_) => MessageContentType::File,
        }
    }

    pub fn summary(&self) -> (r: String)
        ensures
            r@ == self.spec_summary(),
    {
        match self {
            MessageContent::Text { content } => content.clone(),
            MessageContent::Picture(picture) => {
                if picture.source_url.as_str().is_empty() {
                    picture.snapshot_url.clone()
                } else {
                    picture.source_url.clone()
                }
            },
            MessageContent::File(file) => file.file_name.clone(),
        }
    }

    fn validate(&self) -> (r: Result<(), OpenImError>)
        ensures
            r is Ok <==> self.spec_error() is None,
            r matches Err(e) ==> Some(e@) == self.spec_error(),
    {
        match self {
            MessageContent::Text { content } => ensure_not_empty(content.as_str(), "text_content"),
            MessageContent::Picture(picture) => {
                if picture.source_url.as_str().is_empty() && picture.snapshot_url.as_str().is_empty() {
                    return Err(OpenImError::args("picture url is empty"));
                }
                Ok(())
            },
            MessageContent::File(file) => {
                ensure_not_empty(file.file_name.as_str(), "file_name")?;
                if file.file_size < 0 {
                    return Err(OpenImError::args("file_size is negative"));
                }
                Ok(())
            },
        }
    }

    /// The file content for an uploaded file: its URL, name, size and
    /// content type, validated like any file content.
    pub fn file_from_upload(file: &FileDigest, url: &str) -> (r: Result<MessageContent, OpenImError>)
        ensures
            r is Ok <==> file.file_size <= i64::MAX && file.file_name@.len() > 0,
            file.file_size > i64::MAX ==> (r matches Err(e) && e@ == error_of(
                10002,
                "file_size exceeds i64 range"@,
            )),
            file.file_size <= i64::MAX && file.file_name@.len() == 0 ==> (r matches Err(e) && e@
                == error_of(10002, empty_message("file_name"@))),
            r matches Ok(c) ==> (c matches MessageContent::File(f) && f.source_url@ == url@
                && f.file_name@ == file.file_name@ && f.file_size == file.file_size
                && f.file_type@ == file.content_type@),
    {
        if file.file_size > 0x7fff_ffff_ffff_ffffu64 {
            return Err(OpenImError::args("file_size exceeds i64 range"));
        }
        let content = MessageContent::File(
            FileElem {
                source_url: owned(url),
                file_name: file.file_name.clone(),
                file_size: file.file_size as i64,
                file_type: file.content_type.clone(),
            },
        );
        content.validate()?;
        Ok(content)
    }

    fn duplicate(&self) -> (r: MessageContent)
        ensures
            r == *self,
    {
        match self {
            MessageContent::Text { content } => MessageContent::Text { content: content.clone() },
            MessageContent::Picture(p) => MessageContent::Picture(
                PictureElem {
                    source_url: p.source_url.clone(),
                    snapshot_url: p.snapshot_url.clone(),
                    width: p.width,
                    height: p.height,
                    size: p.size,
                    image_type: p.image_type.clone(),
                },
            ),
            MessageContent::File(f) => MessageContent::File(
                FileElem {
                    source_url: f.source_url.clone(),
                    file_name: f.file_name.clone(),
                    file_size: f.file_size,
                    file_type: f.file_type.clone(),
                },
            ),
        }
    }
}

#[derive(Debug, Clone, PartialEq, Eq)]
pub struct ChatMessage {
    pub client_msg_id: String,
    pub server_msg_id: Option<String>,
    pub conversation_id: String,
    pub send_id: String,
    pub recv_id: String,
    pub group_id: String,
    pub session_type: SessionType,
    pub content_type: MessageContentType,
    pub content: MessageContent,
    pub is_read: bool,
    pub status: MessageStatus,
    pub seq: i64,
    pub send_time: i64,
    pub create_time: i64,
    pub attached_info: String,
    pub ex: String,
    pub local_ex: String,
    pub revoked: bool,
}

/// The conversation id of two parties (or a party and a group): single
/// chats and notifications put the two user ids in order.
pub open spec fn spec_conversation_id(a: Seq<char>, b: Seq<char>, session_type: SessionType) -> Seq<
    char,
> {
    let low = if seq_le(a, b) {
        a
    } else {
        b
    };
    let high = if seq_le(a, b) {
        b
    } else {
        a
    };
    match session_type {
        SessionType::Single => "si_"@ + low + "_"@ + high,
        SessionType::WriteGroup => "g_"@ + b,
        SessionType::ReadGroup => "sg_"@ + b,
        SessionType::Notification => "sn_"@ + low + "_"@ + high,
    }
}

/// The id of a single chat or notification conversation does not depend
/// on which of the two parties is named first.
pub proof fn law_peer_conversation_id_symmetric(a: Seq<char>, b: Seq<char>, session_type: SessionType)
    requires
        session_type is Single || session_type is Notification,
    ensures
        spec_conversation_id(a, b, session_type) == spec_conversation_id(b, a, session_type),
{
    lemma_order_total(a, b, a);
}

/// The error of a conversation-id request.
pub open spec fn conversation_id_error(a: Seq<char>, b: Seq<char>) -> Option<ErrorView> {
    pair_error(a, "owner_or_send_id"@, b, "target_id"@)
}

/// The party a message is routed to: the receiver in a single chat or
/// notification, the group otherwise.
pub open spec fn route_target_of(m: ChatMessage) -> Seq<char> {
    if m.session_type.is_peer() {
        m.recv_id@
    } else {
        m.group_id@
    }
}

/// What is wrong with a message, if anything, in the order the checks run.
pub open spec fn message_error(m: ChatMessage) -> Option<ErrorView> {
    if m.client_msg_id@.len() == 0 {
        Some(error_of(10002, empty_message("client_msg_id"@)))
    } else if m.conversation_id@.len() == 0 {
        Some(error_of(10002, empty_message("conversation_id"@)))
    } else if m.send_id@.len() == 0 {
        Some(error_of(10002, empty_message("send_id"@)))
    } else if m.content_type != m.content.spec_content_type() {
        Some(error_of(10002, "content_type does not match content"@))
    } else if m.session_type.is_peer() && m.recv_id@.len() == 0 {
        Some(error_of(10002, empty_message("recv_id"@)))
    } else if !m.session_type.is_peer() && m.group_id@.len() == 0 {
        Some(error_of(10002, empty_message("group_id"@)))
    } else if spec_conversation_id(m.send_id@, route_target_of(m), m.session_type)
        != m.conversation_id@ {
        Some(error_of(10002, "conversation_id does not match message route"@))
    } else {
        m.content.spec_error()
    }
}

/// The message `ChatMessage::outgoing` builds before validating it.
pub open spec fn outgoing_message(
    client_msg_id: Seq<char>,
    send_id: Seq<char>,
    target_id: Seq<char>,
    session_type: SessionType,
    content: MessageContent,
    send_time: i64,
    m: ChatMessage,
) -> bool {
    &&& m.client_msg_id@ == client_msg_id
    &&& m.server_msg_id is None
    &&& m.conversation_id@ == spec_conversation_id(send_id, target_id, session_type)
    &&& m.send_id@ == send_id
    &&& m.recv_id@ == (if session_type.is_peer() {
        target_id
    } else {
        Seq::empty()
    })
    &&& m.group_id@ == (if session_type.is_peer() {
        Seq::empty()
    } else {
        target_id
    })
    &&& m.session_type == session_type
    &&& m.content_type == content.spec_content_type()
    &&& m.content == content
    &&& m.is_read
    &&& m.status == MessageStatus::Sending
    &&& m.seq == 0
    &&& m.send_time == send_time
    &&& m.create_time == send_time
    &&& m.attached_info@.len() == 0
    &&& m.ex@.len() == 0
    &&& m.local_ex@.len() == 0
    &&& !m.revoked
}

/// The conversation id for two parties and a session type.
pub fn conversation_id_by_session_type(
    owner_or_send_id: &str,
    target_id: &str,
    session_type: SessionType,
) -> (r: Result<String, OpenImError>)
    ensures
        r is Ok <==> conversation_id_error(owner_or_send_id@, target_id@) is None,
        r matches Err(e) ==> Some(e@) == conversation_id_error(owner_or_send_id@, target_id@),
        r matches Ok(id) ==> id@ == spec_conversation_id(owner_or_send_id@, target_id@, session_type),
{
    ensure_pair(owner_or_send_id, "owner_or_send_id", target_id, "target_id")?;
    let a_first = crate::text::order_str(owner_or_send_id, target_id) <= 0;
    let (low, high) = if a_first {
        (owner_or_send_id, target_id)
    } else {
        (target_id, owner_or_send_id)
    };
    let id = match session_type {
        SessionType::Single => {
            let head = concat3("si_", low, "_");
            concat2(head.as_str(), high)
        },
        SessionType::WriteGroup => concat2("g_", target_id),
        SessionType::ReadGroup => concat2("sg_", target_id),
        SessionType::Notification => {
            let head = concat3("sn_", low, "_");
            concat2(head.as_str(), high)
        },
    };
    Ok(id)
}

/// The conversation id a message's route gives.
pub fn conversation_id_by_message(message: &ChatMessage) -> (r: Result<String, OpenImError>)
    ensures
        r is Ok <==> conversation_id_error(message.send_id@, route_target_of(*message)) is None,
        r matches Err(e) ==> Some(e@) == conversation_id_error(message.send_id@, route_target_of(*message)),
        r matches Ok(id) ==> id@ == spec_conversation_id(
            message.send_id@,
            route_target_of(*message),
            message.session_type,
        ),
{
    match message.session_type {
        SessionType::Single | SessionType::Notification => conversation_id_by_session_type(
            message.send_id.as_str(),
            message.recv_id.as_str(),
            message.session_type,
        ),
        SessionType::WriteGroup | SessionType::ReadGroup => conversation_id_by_session_type(
            message.send_id.as_str(),
            message.group_id.as_str(),
            message.session_type,
        ),
    }
}

fn validate_message(message: &ChatMessage) -> (r: Result<(), OpenImError>)
    ensures
        r is Ok <==> message_error(*message) is None,
        r matches Err(e) ==> Some(e@) == message_error(*message),
{
    ensure_not_empty(message.client_msg_id.as_str(), "client_msg_id")?;
    ensure_not_empty(message.conversation_id.as_str(), "conversation_id")?;
    ensure_not_empty(message.send_id.as_str(), "send_id")?;
    if message.content_type != message.content.content_type() {
        return Err(OpenImError::args("content_type does not match content"));
    }
    match message.session_type {
        SessionType::Single | SessionType::Notification => {
            ensure_not_empty(message.recv_id.as_str(), "recv_id")?;
        },
        SessionType::WriteGroup | SessionType::ReadGroup => {
            ensure_not_empty(message.group_id.as_str(), "group_id")?;
        },
    }
    let id = conversation_id_by_message(message)?;
    if !id.eq(&message.conversation_id) {
        return Err(OpenImError::args("conversation_id does not match message route"));
    }
    message.content.validate()
}

impl ChatMessage {
    /// A message being sent: routed to its conversation, read, in the
    /// sending state, then validated.
    pub fn outgoing(
        client_msg_id: &str,
        send_id: &str,
        target_id: &str,
        session_type: SessionType,
        content: MessageContent,
        send_time: i64,
    ) -> (r: Result<ChatMessage, OpenImError>)
        ensures
            r is Ok <==> conversation_id_error(send_id@, target_id@) is None && (forall|m: ChatMessage|
                outgoing_message(client_msg_id@, send_id@, target_id@, session_type, content, send_time, m)
                    ==> message_error(m) is None),
            r matches Err(e) ==> (Some(e@) == conversation_id_error(send_id@, target_id@)
                || exists|m: ChatMessage|
                outgoing_message(client_msg_id@, send_id@, target_id@, session_type, content, send_time, m)
                    && Some(e@) == message_error(m)),
            r matches Ok(m) ==> outgoing_message(
                client_msg_id@,
                send_id@,
                target_id@,
                session_type,
                content,
                send_time,
                m,
            ),
    {
        let conversation_id = conversation_id_by_session_type(send_id, target_id, session_type)?;
        let is_peer = match session_type {
            SessionType::Single | SessionType::Notification => true,
            _ => false,
        };
        let recv_id = if is_peer {
            owned(target_id)
        } else {
            String::new()
        };
        let group_id = if is_peer {
            String::new()
        } else {
            owned(target_id)
        };
        let content_type = content.content_type();
        let message = ChatMessage {
            client_msg_id: owned(client_msg_id),
            server_msg_id: None,
            conversation_id,
            send_id: owned(send_id),
            recv_id,
            group_id,
            session_type,
            content_type,
            content,
            is_read: true,
            status: MessageStatus::Sending,
            seq: 0,
            send_time,
            create_time: send_time,
            attached_info: String::new(),
            ex: String::new(),
            local_ex: String::new(),
            revoked: false,
        };
        proof {
            assert(outgoing_message(client_msg_id@, send_id@, target_id@, session_type, content, send_time, message));
            assert forall|m: ChatMessage|
                outgoing_message(client_msg_id@, send_id@, target_id@, session_type, content, send_time, m)
                    implies message_error(m) == message_error(message) by {
                assert(route_target_of(m) == route_target_of(message));
            }
        }
        validate_message(&message)?;
        Ok(message)
    }

    /// A message received from the server: like an outgoing one, but with
    /// the server id and sequence, unread and sent successfully.
    pub fn incoming(
        client_msg_id: &str,
        server_msg_id: &str,
        send_id: &str,
        target_id: &str,
        session_type: SessionType,
        content: MessageContent,
        seq: i64,
        send_time: i64,
    ) -> (r: Result<ChatMessage, OpenImError>)
        ensures
            r is Ok <==> conversation_id_error(send_id@, target_id@) is None && (forall|m: ChatMessage|
                outgoing_message(client_msg_id@, send_id@, target_id@, session_type, content, send_time, m)
                    ==> message_error(m) is None),
            r matches Ok(m) ==> exists|o: ChatMessage|
                outgoing_message(client_msg_id@, send_id@, target_id@, session_type, content, send_time, o)
                    && m == (ChatMessage {
                    server_msg_id: m.server_msg_id,
                    is_read: false,
                    status: MessageStatus::SendSuccess,
                    seq,
                    ..o
                }) && (m.server_msg_id matches Some(s) && s@ == server_msg_id@),
    {
        let mut message = ChatMessage::outgoing(
            client_msg_id,
            send_id,
            target_id,
            session_type,
            content,
            send_time,
        )?;
        let ghost o = message;
        message.server_msg_id = Some(owned(server_msg_id));
        message.is_read = false;
        message.status = MessageStatus::SendSuccess;
        message.seq = seq;
        proof {
            assert(route_target_of(message) == route_target_of(o));
            assert(message_error(message) == message_error(o));
        }
        validate_message(&message)?;
        Ok(message)
    }
}

impl Duplicate for ChatMessage {
    fn duplicate(&self) -> (r: ChatMessage)
        ensures
            r == *self,
    {
        ChatMessage {
            client_msg_id: self.client_msg_id.clone(),
            server_msg_id: match &self.server_msg_id {
                Some(s) => Some(s.clone()),
                None => None,
            },
            conversation_id: self.conversation_id.clone(),
            send_id: self.send_id.clone(),
            recv_id: self.recv_id.clone(),
            group_id: self.group_id.clone(),
            session_type: self.session_type,
            content_type: self.content_type,
            content: self.content.duplicate(),
            is_read: self.is_read,
            status: self.status,
            seq: self.seq,
            send_time: self.send_time,
            create_time: self.create_time,
            attached_info: self.attached_info.clone(),
            ex: self.ex.clone(),
            local_ex: self.local_ex.clone(),
            revoked: self.revoked,
        }
    }
}

impl Keyed for ChatMessage {
    open spec fn spec_key(&self) -> Key {
        (self.conversation_id@, self.client_msg_id@)
    }

    fn key_is(&self, scope: &str, id: &str) -> (r: bool) {
        str_eq(self.conversation_id.as_str(), scope) && str_eq(self.client_msg_id.as_str(), id)
    }

    fn same_key(&self, other: &Self) -> (r: bool) {
        self.conversation_id.eq(&other.conversation_id) && self.client_msg_id.eq(
            &other.client_msg_id,
        )
    }

    fn in_scope(&self, scope: &str) -> (r: bool) {
        str_eq(self.conversation_id.as_str(), scope)
    }
}

/// Message order: by sequence, then send time, then client message id,
/// then conversation id.
pub open spec fn message_before(a: ChatMessage, b: ChatMessage) -> bool {
    a.seq < b.seq || (a.seq == b.seq && (a.send_time < b.send_time || (a.send_time == b.send_time
        && pair_before((a.client_msg_id@, a.conversation_id@), (b.client_msg_id@, b.conversation_id@)))))
}

impl ListOrder for ChatMessage {
    open spec fn spec_before(&self, other: &Self) -> bool {
        message_before(*self, *other)
    }

    fn before(&self, other: &Self) -> (r: bool) {
        if self.seq != other.seq {
            self.seq < other.seq
        } else if self.send_time != other.send_time {
            self.send_time < other.send_time
        } else {
            pair_before_exec(
                self.client_msg_id.as_str(),
                self.conversation_id.as_str(),
                other.client_msg_id.as_str(),
                other.conversation_id.as_str(),
            )
        }
    }

    proof fn lemma_strict_total(a: Self, b: Self, c: Self) {
        lemma_pair_before(
            (a.client_msg_id@, a.conversation_id@),
            (b.client_msg_id@, b.conversation_id@),
            (c.client_msg_id@, c.conversation_id@),
        );
    }
}

/// Field-by-field equality of two messages.
pub open spec fn message_same(a: ChatMessage, b: ChatMessage) -> bool {
    &&& a.client_msg_id@ == b.client_msg_id@
    &&& match (a.server_msg_id, b.server_msg_id) {
        (Some(x), Some(y)) => x@ == y@,
        (None, None) => true,
        _ => false,
    }
    &&& a.conversation_id@ == b.conversation_id@
    &&& a.send_id@ == b.send_id@
    &&& a.recv_id@ == b.recv_id@
    &&& a.group_id@ == b.group_id@
    &&& a.session_type == b.session_type
    &&& a.content_type == b.content_type
    &&& content_same(a.content, b.content)
    &&& a.is_read == b.is_read
    &&& a.status == b.status
    &&& a.seq == b.seq
    &&& a.send_time == b.send_time
    &&& a.create_time == b.create_time
    &&& a.attached_info@ == b.attached_info@
    &&& a.ex@ == b.ex@
    &&& a.local_ex@ == b.local_ex@
    &&& a.revoked == b.revoked
}

impl SyncItem for ChatMessage {
    open spec fn sync_key(&self) -> Seq<char> {
        self.client_msg_id@
    }

    open spec fn same_value(&self, other: &Self) -> bool {
        message_same(*self, *other)
    }

    fn sync_id(&self) -> (r: String) {
        self.client_msg_id.clone()
    }

    fn same_sync_key(&self, other: &Self) -> (r: bool) {
        self.client_msg_id.eq(&other.client_msg_id)
    }

    fn same(&self, other: &Self) -> (r: bool) {
        let server_same = match (&self.server_msg_id, &other.server_msg_id) {
            (Some(x), Some(y)) => x.eq(y),
            (None, None) => true,
            _ => false,
        };
        self.client_msg_id.eq(&other.client_msg_id) && server_same && self.conversation_id.eq(
            &other.conversation_id,
        ) && self.send_id.eq(&other.send_id) && self.recv_id.eq(&other.recv_id)
            && self.group_id.eq(&other.group_id) && self.session_type == other.session_type
            && self.content_type == other.content_type && content_equal(
            &self.content,
            &other.content,
        ) && self.is_read == other.is_read && self.status == other.status && self.seq
            == other.seq && self.send_time == other.send_time && self.create_time
            == other.create_time && self.attached_info.eq(&other.attached_info) && self.ex.eq(
            &other.ex,
        ) && self.local_ex.eq(&other.local_ex) && self.revoked == other.revoked
    }
}

/// The latest-message summary of a conversation.
#[derive(Debug, Clone, PartialEq, Eq)]
pub struct MessageSnapshot {
    pub client_msg_id: String,
    pub sender_user_id: String,
    pub content_type: MessageContentType,
    pub summary: String,
    pub send_time: i64,
    pub seq: i64,
}

/// The snapshot of a message.
pub open spec fn snapshot_of(m: ChatMessage, s: MessageSnapshot) -> bool {
    &&& s.client_msg_id@ == m.client_msg_id@
    &&& s.sender_user_id@ == m.send_id@
    &&& s.content_type == m.content_type
    &&& s.summary@ == m.content.spec_summary()
    &&& s.send_time == m.send_time
    &&& s.seq == m.seq
}

impl MessageSnapshot {
    pub fn from_message(message: &ChatMessage) -> (r: MessageSnapshot)
        ensures
            snapshot_of(*message, r),
    {
        MessageSnapshot {
            client_msg_id: message.client_msg_id.clone(),
            sender_user_id: message.send_id.clone(),
            content_type: message.content_type,
            summary: message.content.summary(),
            send_time: message.send_time,
            seq: message.seq,
        }
    }

    pub fn duplicate(&self) -> (r: MessageSnapshot)
        ensures
            r == *self,
    {
        MessageSnapshot {
            client_msg_id: self.client_msg_id.clone(),
            sender_user_id: self.sender_user_id.clone(),
            content_type: self.content_type,
            summary: self.summary.clone(),
            send_time: self.send_time,
            seq: self.seq,
        }
    }
}

/// The server's answer to a sent message.
#[derive(Debug, Clone, PartialEq, Eq)]
pub struct SendMessageAck {
    pub server_msg_id: String,
    pub seq: i64,
    pub send_time: i64,
}

/// Sends a message to the server.
pub trait MessageSender {
    fn send_message(&mut self, message: &ChatMessage) -> Result<SendMessageAck, OpenImError>;
}

/// A repository of messages.
pub trait MessageRepository {
    fn save_message(&mut self, message: ChatMessage) -> Result<(), OpenImError>;

    fn load_message(&self, conversation_id: &str, client_msg_id: &str) -> Result<
        Option<ChatMessage>,
        OpenImError,
    >;

    fn load_history(&self, conversation_id: &str, pagination: Pagination) -> Result<
        Vec<ChatMessage>,
        OpenImError,
    >;
}

/// A message as it is handed to the sender: sending, and read.
pub open spec fn prepared_outgoing(m: ChatMessage) -> ChatMessage {
    ChatMessage { status: MessageStatus::Sending, is_read: true, ..m }
}

/// Marks a message as sending and read, ready for the sender.
pub fn prepare_outgoing(message: ChatMessage) -> (r: ChatMessage)
    ensures
        r == prepared_outgoing(message),
{
    let mut message = message;
    message.status = MessageStatus::Sending;
    message.is_read = true;
    message
}

/// What recording a sender's answer for the message at `key` does, from
/// store `m0` to store `m1` with result `r`: an acknowledgement without a
/// server id, or a missing message, fails and changes nothing; an
/// acknowledgement marks the message sent and returns it; a failure marks
/// it failed and returns the sender's error.
pub open spec fn send_recorded(
    m0: Map<Key, ChatMessage>,
    key: Key,
    outcome: Result<SendMessageAck, OpenImError>,
    r: Result<ChatMessage, OpenImError>,
    m1: Map<Key, ChatMessage>,
) -> bool {
    match outcome {
        Ok(ack) => if ack.server_msg_id@.len() == 0 {
            r matches Err(e) && e@ == error_of(10002, empty_message("server_msg_id"@)) && m1 == m0
        } else if lookup_error(m0, key.0, key.1) is Some {
            r matches Err(e) && Some(e@) == lookup_error(m0, key.0, key.1) && m1 == m0
        } else {
            r == Ok::<ChatMessage, OpenImError>(acked(m0[key], ack)) && m1 == m0.insert(key, acked(m0[key], ack))
        },
        Err(err) => if lookup_error(m0, key.0, key.1) is Some {
            r matches Err(e) && Some(e@) == lookup_error(m0, key.0, key.1) && m1 == m0
        } else {
            r == Err::<ChatMessage, OpenImError>(err) && m1 == m0.insert(
                key,
                ChatMessage { status: MessageStatus::SendFailed, ..m0[key] },
            )
        },
    }
}

/// The message after a successful send acknowledgement.
pub open spec fn acked(m: ChatMessage, ack: SendMessageAck) -> ChatMessage {
    ChatMessage {
        server_msg_id: Some(ack.server_msg_id),
        seq: ack.seq,
        send_time: ack.send_time,
        status: MessageStatus::SendSuccess,
        ..m
    }
}

/// The error for looking up a message: empty ids first, then a missing
/// message.
pub open spec fn lookup_error(m: Map<Key, ChatMessage>, conversation_id: Seq<char>, client_msg_id: Seq<char>) -> Option<
    ErrorView,
> {
    if conversation_id.len() == 0 {
        Some(error_of(10002, empty_message("conversation_id"@)))
    } else if client_msg_id.len() == 0 {
        Some(error_of(10002, empty_message("client_msg_id"@)))
    } else if !m.contains_key((conversation_id, client_msg_id)) {
        Some(error_of(10002, "message not found"@))
    } else {
        None
    }
}

/// Whether a message's summary, lower-cased, contains the lower-cased query.
pub open spec fn summary_matches(m: ChatMessage, query: Seq<char>) -> bool {
    has_substring(spec_to_lowercase(m.content.spec_summary()), spec_to_lowercase(query))
}

/// The messages of `s` that match the query, in order.
pub open spec fn matching(s: Seq<ChatMessage>, query: Seq<char>) -> Seq<ChatMessage>
    decreases s.len(),
{
    if s.len() == 0 {
        Seq::empty()
    } else {
        matching(s.drop_last(), query) + if summary_matches(s.last(), query) {
            seq![s.last()]
        } else {
            Seq::empty()
        }
    }
}

/// Messages, keyed by conversation and client message id.
pub struct MessageService {
    messages: KeyedStore<ChatMessage>,
}

impl Default for MessageService {
    fn default() -> (r: MessageService)
        ensures
            r.view() == Map::<Key, ChatMessage>::empty(),
    {
        MessageService::new()
    }
}

impl MessageService {
    pub closed spec fn view(&self) -> Map<Key, ChatMessage> {
        self.messages.view()
    }

    pub fn new() -> (r: MessageService)
        ensures
            r.view() == Map::<Key, ChatMessage>::empty(),
    {
        MessageService { messages: KeyedStore::new() }
    }

    /// Stores a valid message under its key.
    pub fn upsert_message(&mut self, message: ChatMessage) -> (r: Result<(), OpenImError>)
        ensures
            r is Ok <==> message_error(message) is None,
            r matches Err(e) ==> Some(e@) == message_error(message) && final(self).view() == old(
                self,
            ).view(),
            r is Ok ==> final(self).view() == old(self).view().insert(message.spec_key(), message),
    {
        validate_message(&message)?;
        self.messages.upsert(message);
        Ok(())
    }

    /// Stores the message as sending and read, hands it to the sender, and
    /// records the sender's answer with `record_send_outcome`.
    pub fn send_message<S: MessageSender + ?Sized>(&mut self, message: ChatMessage, sender: &mut S) -> (r:
        Result<ChatMessage, OpenImError>)
        ensures
            message_error(message) is Some ==> (r matches Err(e) && Some(e@) == message_error(message)
                && final(self).view() == old(self).view()),
            message_error(message) is None ==> exists|outcome: Result<SendMessageAck, OpenImError>| send_recorded(
                old(self).view().insert(message.spec_key(), prepared_outgoing(message)),
                message.spec_key(),
                outcome,
                r,
                final(self).view(),
            ),
    {
        validate_message(&message)?;
        let prepared = prepare_outgoing(message);
        assert(message_error(prepared) == message_error(message));
        self.messages.upsert(prepared.duplicate());
        assert(prepared.spec_key() == message.spec_key());
        let ghost stored = self.view();
        assert(stored == old(self).view().insert(message.spec_key(), prepared_outgoing(message)));
        let outcome = sender.send_message(&prepared);
        let ghost answer = outcome;
        let r = self.record_send_outcome(&prepared, outcome);
        assert(send_recorded(stored, message.spec_key(), answer, r, self.view()));
        r
    }

    /// Records the sender's answer for a stored message: an acknowledgement
    /// marks it sent (as `ack_send_success`), a failure marks it failed and
    /// is returned as it came.
    pub fn record_send_outcome(&mut self, message: &ChatMessage, outcome: Result<SendMessageAck, OpenImError>) -> (r:
        Result<ChatMessage, OpenImError>)
        ensures
            send_recorded(old(self).view(), message.spec_key(), outcome, r, final(self).view()),
    {
        match outcome {
            Ok(ack) => self.ack_send_success(message.conversation_id.as_str(), message.client_msg_id.as_str(), ack),
            Err(err) => {
                let marked = self.mark_send_failed(message.conversation_id.as_str(), message.client_msg_id.as_str());
                match marked {
                    Ok(_) => Err(err),
                    Err(e) => Err(e),
                }
            },
        }
    }

    /// Stores a received message; one still marked sending counts as sent.
    pub fn receive_message(&mut self, message: ChatMessage) -> (r: Result<ChatMessage, OpenImError>)
        ensures
            r is Ok <==> message_error(message) is None,
            r matches Err(e) ==> Some(e@) == message_error(message) && final(self).view() == old(
                self,
            ).view(),
            r matches Ok(m) ==> m == (if message.status == MessageStatus::Sending {
                ChatMessage { status: MessageStatus::SendSuccess, ..message }
            } else {
                message
            }) && final(self).view() == old(self).view().insert(message.spec_key(), m),
    {
        validate_message(&message)?;
        let mut message = message;
        if message.status == MessageStatus::Sending {
            message.status = MessageStatus::SendSuccess;
        }
        self.messages.upsert(message.duplicate());
        Ok(message)
    }

    fn stored(&self, conversation_id: &str, client_msg_id: &str) -> (r: Result<ChatMessage, OpenImError>)
        ensures
            r is Ok <==> lookup_error(self.view(), conversation_id@, client_msg_id@) is None,
            r matches Err(e) ==> Some(e@) == lookup_error(self.view(), conversation_id@, client_msg_id@),
            r matches Ok(m) ==> m == self.view()[(conversation_id@, client_msg_id@)] && m.spec_key()
                == (conversation_id@, client_msg_id@),
    {
        ensure_not_empty(conversation_id, "conversation_id")?;
        ensure_not_empty(client_msg_id, "client_msg_id")?;
        match self.messages.get(conversation_id, client_msg_id) {
            Some(m) => Ok(m.duplicate()),
            None => Err(OpenImError::args("message not found")),
        }
    }

    /// Records the server's acknowledgement of a sent message.
    pub fn ack_send_success(&mut self, conversation_id: &str, client_msg_id: &str, ack: SendMessageAck) -> (r:
        Result<ChatMessage, OpenImError>)
        ensures
            r is Ok <==> ack.server_msg_id@.len() > 0 && lookup_error(old(self).view(), conversation_id@, client_msg_id@) is None,
            r matches Err(e) ==> final(self).view() == old(self).view() && Some(e@) == (if ack.server_msg_id@.len() == 0 {
                Some(error_of(10002, empty_message("server_msg_id"@)))
            } else {
                lookup_error(old(self).view(), conversation_id@, client_msg_id@)
            }),
            r matches Ok(m) ==> m == acked(old(self).view()[(conversation_id@, client_msg_id@)], ack)
                && final(self).view() == old(self).view().insert((conversation_id@, client_msg_id@), m),
    {
        ensure_not_empty(ack.server_msg_id.as_str(), "server_msg_id")?;
        let mut message = self.stored(conversation_id, client_msg_id)?;
        message.server_msg_id = Some(ack.server_msg_id);
        message.seq = ack.seq;
        message.send_time = ack.send_time;
        message.status = MessageStatus::SendSuccess;
        self.messages.upsert(message.duplicate());
        Ok(message)
    }

    /// Marks a stored message as failed to send.
    pub fn mark_send_failed(&mut self, conversation_id: &str, client_msg_id: &str) -> (r: Result<
        ChatMessage,
        OpenImError,
    >)
        ensures
            r is Ok <==> lookup_error(old(self).view(), conversation_id@, client_msg_id@) is None,
            r matches Err(e) ==> Some(e@) == lookup_error(old(self).view(), conversation_id@, client_msg_id@)
                && final(self).view() == old(self).view(),
            r matches Ok(m) ==> m == (ChatMessage {
                status: MessageStatus::SendFailed,
                ..old(self).view()[(conversation_id@, client_msg_id@)]
            }) && final(self).view() == old(self).view().insert((conversation_id@, client_msg_id@), m),
    {
        let mut message = self.stored(conversation_id, client_msg_id)?;
        message.status = MessageStatus::SendFailed;
        self.messages.upsert(message.duplicate());
        Ok(message)
    }

    /// Marks a stored message as read.
    pub fn mark_read(&mut self, conversation_id: &str, client_msg_id: &str) -> (r: Result<
        ChatMessage,
        OpenImError,
    >)
        ensures
            r is Ok <==> lookup_error(old(self).view(), conversation_id@, client_msg_id@) is None,
            r matches Err(e) ==> Some(e@) == lookup_error(old(self).view(), conversation_id@, client_msg_id@)
                && final(self).view() == old(self).view(),
            r matches Ok(m) ==> m == (ChatMessage {
                is_read: true,
                ..old(self).view()[(conversation_id@, client_msg_id@)]
            }) && final(self).view() == old(self).view().insert((conversation_id@, client_msg_id@), m),
    {
        let mut message = self.stored(conversation_id, client_msg_id)?;
        message.is_read = true;
        self.messages.upsert(message.duplicate());
        Ok(message)
    }

    /// Marks a stored message as revoked and deleted.
    pub fn revoke_message(&mut self, conversation_id: &str, client_msg_id: &str) -> (r: Result<
        ChatMessage,
        OpenImError,
    >)
        ensures
            r is Ok <==> lookup_error(old(self).view(), conversation_id@, client_msg_id@) is None,
            r matches Err(e) ==> Some(e@) == lookup_error(old(self).view(), conversation_id@, client_msg_id@)
                && final(self).view() == old(self).view(),
            r matches Ok(m) ==> m == (ChatMessage {
                revoked: true,
                status: MessageStatus::HasDeleted,
                ..old(self).view()[(conversation_id@, client_msg_id@)]
            }) && final(self).view() == old(self).view().insert((conversation_id@, client_msg_id@), m),
    {
        let mut message = self.stored(conversation_id, client_msg_id)?;
        message.revoked = true;
        message.status = MessageStatus::HasDeleted;
        self.messages.upsert(message.duplicate());
        Ok(message)
    }

    pub fn get_message(&self, conversation_id: &str, client_msg_id: &str) -> (r: Result<
        Option<ChatMessage>,
        OpenImError,
    >)
        ensures
            r is Err <==> conversation_id@.len() == 0 || client_msg_id@.len() == 0,
            r matches Err(e) ==> Some(e@) == lookup_error(self.view(), conversation_id@, client_msg_id@),
            r matches Ok(o) ==> (o is Some <==> self.view().contains_key((conversation_id@, client_msg_id@))),
            r matches Ok(Some(m)) ==> m == self.view()[(conversation_id@, client_msg_id@)],
    {
        ensure_not_empty(conversation_id, "conversation_id")?;
        ensure_not_empty(client_msg_id, "client_msg_id")?;
        match self.messages.get(conversation_id, client_msg_id) {
            Some(m) => Ok(Some(m.duplicate())),
            None => Ok(None),
        }
    }

    /// The messages of a conversation, oldest first (by sequence, send time,
    /// client id).
    pub fn all_messages(&self, conversation_id: &str) -> (r: Result<Vec<ChatMessage>, OpenImError>)
        ensures
            r is Ok <==> conversation_id@.len() > 0,
            r matches Err(e) ==> e@ == error_of(10002, empty_message("conversation_id"@)),
            r matches Ok(v) ==> v@ == listing(self.view(), conversation_id@),
    {
        ensure_not_empty(conversation_id, "conversation_id")?;
        Ok(list_of(&self.messages, conversation_id))
    }

    /// One page of a conversation's messages, newest first.
    pub fn history(&self, conversation_id: &str, pagination: Pagination) -> (r: Result<
        Vec<ChatMessage>,
        OpenImError,
    >)
        ensures
            r is Ok <==> conversation_id@.len() > 0,
            r matches Err(e) ==> e@ == error_of(10002, empty_message("conversation_id"@)),
            r matches Ok(v) ==> v@ == spec_page(
                listing(self.view(), conversation_id@).reverse(),
                pagination,
            ),
    {
        let messages = self.all_messages(conversation_id)?;
        let reversed = reverse_vec(messages);
        Ok(paginate(reversed, pagination))
    }

    /// One page of the messages whose summary contains the query (ignoring
    /// case), newest first; limited to one conversation when one is given.
    pub fn search(&self, query: &str, conversation_id: Option<&str>, pagination: Pagination) -> (r:
        Result<Vec<ChatMessage>, OpenImError>)
        ensures
            r is Ok <==> query@.len() > 0 && (conversation_id matches Some(c) ==> c@.len() > 0),
            r matches Err(e) ==> e@ == (if query@.len() == 0 {
                error_of(10002, empty_message("query"@))
            } else {
                error_of(10002, empty_message("conversation_id"@))
            }),
            r matches Ok(v) ==> v@ == spec_page(
                matching(
                    match conversation_id {
                        Some(c) => listing(self.view(), c@),
                        None => listing_all(self.view()),
                    },
                    query@,
                ).reverse(),
                pagination,
            ),
    {
        ensure_not_empty(query, "query")?;
        if let Some(c) = conversation_id {
            ensure_not_empty(c, "conversation_id")?;
        }
        let lowered = to_lowercase(query);
        let candidates = match conversation_id {
            Some(c) => list_of(&self.messages, c),
            None => list_every(&self.messages),
        };
        let mut found: Vec<ChatMessage> = Vec::new();
        let mut i: usize = 0;
        while i < candidates.len()
            invariant
                i <= candidates@.len(),
                lowered@ == spec_to_lowercase(query@),
                found@ == matching(candidates@.take(i as int), query@),
            decreases candidates.len() - i,
        {
            let m = &candidates[i];
            assert(candidates@.take(i + 1).drop_last() =~= candidates@.take(i as int));
            let summary = to_lowercase(m.content.summary().as_str());
            if contains_str(summary.as_str(), lowered.as_str()) {
                found.push(m.duplicate());
            }
            i = i + 1;
        }
        assert(candidates@.take(i as int) =~= candidates@);
        let reversed = reverse_vec(found);
        Ok(paginate(reversed, pagination))
    }

    /// Merges the server's messages of one conversation into the store:
    /// new ones are inserted, changed ones updated, and nothing is deleted.
    pub fn sync_message_range(&mut self, conversation_id: &str, server_messages: Vec<ChatMessage>) -> (r:
        Result<DomainSyncSummary, OpenImError>)
        ensures
            r is Ok <==> conversation_id@.len() > 0 && first_error(server_messages@, range_check(conversation_id@)) is None,
            r matches Err(e) ==> Some(e@) == (if conversation_id@.len() == 0 {
                Some(error_of(10002, empty_message("conversation_id"@)))
            } else {
                first_error(server_messages@, range_check(conversation_id@))
            }) && final(self).view() == old(self).view(),
            r matches Ok(s) ==> {
                let plan = spec_diff(
                    server_messages@,
                    listing(old(self).view(), conversation_id@),
                    DiffOptions { skip_deletion: true, include_unchanged: true },
                );
                &&& final(self).view() == apply_actions(old(self).view(), plan)
                &&& s == summary_of(plan)
            },
    {
        ensure_not_empty(conversation_id, "conversation_id")?;
        let mut i: usize = 0;
        assert(server_messages@.skip(0) =~= server_messages@);
        while i < server_messages.len()
            invariant
                i <= server_messages@.len(),
                conversation_id@.len() > 0,
                first_error(server_messages@, range_check(conversation_id@)) == first_error(
                    server_messages@.skip(i as int),
                    range_check(conversation_id@),
                ),
            decreases server_messages.len() - i,
        {
            let m = &server_messages[i];
            assert(server_messages@.skip(i as int)[0] == *m);
            if let Err(e) = check_range_message(conversation_id, m) {
                assert(first_error(server_messages@.skip(i as int), range_check(conversation_id@)) == Some(e@));
                return Err(e);
            }
            proof {
                lemma_first_error_skip(server_messages@, range_check(conversation_id@), i as int);
            }
            i = i + 1;
        }
        assert(server_messages@.skip(i as int) =~= Seq::<ChatMessage>::empty());
        let local = list_of(&self.messages, conversation_id);
        let plan = diff_by(
            server_messages.as_slice(),
            local.as_slice(),
            DiffOptions { skip_deletion: true, include_unchanged: true },
        );
        Ok(apply_plan(&mut self.messages, &plan.actions))
    }

    /// Number of stored messages.
    pub fn len(&self) -> (r: usize)
        ensures
            r == self.view().dom().len(),
    {
        self.messages.len()
    }

    pub fn is_empty(&self) -> (r: bool)
        ensures
            r == (self.view().dom().len() == 0),
    {
        self.messages.len() == 0
    }
}

/// The error a server message raises during a range sync of a conversation.
pub open spec fn range_check(conversation_id: Seq<char>) -> spec_fn(ChatMessage) -> Option<ErrorView> {
    |m: ChatMessage|
        match message_error(m) {
            Some(e) => Some(e),
            None => if m.conversation_id@ != conversation_id {
                Some(error_of(10002, "server message conversation_id mismatch"@))
            } else {
                None
            },
        }
}

fn check_range_message(conversation_id: &str, m: &ChatMessage) -> (r: Result<(), OpenImError>)
    ensures
        r is Ok <==> range_check(conversation_id@)(*m) is None,
        r matches Err(e) ==> Some(e@) == range_check(conversation_id@)(*m),
{
    validate_message(m)?;
    if !str_eq(m.conversation_id.as_str(), conversation_id) {
        return Err(OpenImError::args("server message conversation_id mismatch"));
    }
    Ok(())
}

/// The vector reversed.
pub fn reverse_vec<T>(v: Vec<T>) -> (r: Vec<T>)
    ensures
        r@ == v@.reverse(),
{
    let mut v = v;
    let ghost orig = v@;
    let mut r: Vec<T> = Vec::new();
    while v.len() > 0
        invariant
            v@ == orig.take(v@.len() as int),
            v@.len() <= orig.len(),
            r@ == orig.skip(v@.len() as int).reverse(),
        decreases v.len(),
    {
        let ghost n = v@.len();
        let x = v.pop().unwrap();
        r.push(x);
        assert(v@ =~= orig.take(v@.len() as int));
        assert(r@ =~= orig.skip(v@.len() as int).reverse());
    }
    assert(orig.skip(0) =~= orig);
    r
}

impl MessageRepository for MessageService {
    fn save_message(&mut self, message: ChatMessage) -> (r: Result<(), OpenImError>)
        ensures
            r is Ok <==> message_error(message) is None,
            r matches Err(e) ==> Some(e@) == message_error(message) && final(self).view() == old(self).view(),
            r is Ok ==> final(self).view() == old(self).view().insert(message.spec_key(), message),
    {
        self.upsert_message(message)
    }

    fn load_message(&self, conversation_id: &str, client_msg_id: &str) -> (r: Result<
        Option<ChatMessage>,
        OpenImError,
    >)
        ensures
            r is Err <==> conversation_id@.len() == 0 || client_msg_id@.len() == 0,
            r matches Err(e) ==> Some(e@) == lookup_error(self.view(), conversation_id@, client_msg_id@),
            r matches Ok(o) ==> (o is Some <==> self.view().contains_key((conversation_id@, client_msg_id@))),
            r matches Ok(Some(m)) ==> m == self.view()[(conversation_id@, client_msg_id@)],
    {
        self.get_message(conversation_id, client_msg_id)
    }

    fn load_history(&self, conversation_id: &str, pagination: Pagination) -> (r: Result<
        Vec<ChatMessage>,
        OpenImError,
    >)
        ensures
            r is Ok <==> conversation_id@.len() > 0,
            r matches Err(e) ==> e@ == error_of(10002, empty_message("conversation_id"@)),
            r matches Ok(v) ==> v@ == spec_page(
                listing(self.view(), conversation_id@).reverse(),
                pagination,
            ),
    {
        self.history(conversation_id, pagination)
    }
}


impl MessageService {
    /// Message range sync law: a successful sync of a conversation's range
    /// with server messages of distinct client ids stores each server message
    /// (with its values) and keeps every other message, of that conversation
    /// or any other, as it was: history is merged, never deleted.
    pub proof fn law_range_sync_merges_history(self, conversation_id: Seq<char>, server: Seq<ChatMessage>)
        requires
            first_error(server, range_check(conversation_id)) is None,
            distinct_sync_keys(server),
        ensures
            merges_items(self.view(), server, merge_synced(self.view(), server, listing(self.view(), conversation_id))),
    {
        self.messages.lemma_keyed();
        lemma_first_error_none(server, range_check(conversation_id));
        assert forall|i: int| 0 <= i < server.len() implies (#[trigger] server[i].spec_key()).0 == conversation_id by {
            assert(range_check(conversation_id)(server[i]) is None);
        }
        lemma_scope_sync_merges(self.view(), conversation_id, server);
    }
}


impl MessageService {
    /// Listing law: a conversation's listing holds each of its stored
    /// messages once, as stored, in list order, and nothing else.
    pub proof fn law_listing_lists_conversation(self, conversation_id: Seq<char>)
        ensures
            lists_scope(listing(self.view(), conversation_id), self.view(), conversation_id),
    {
        self.messages.lemma_keyed();
        lemma_listing_lists(self.view(), conversation_id);
    }
}


/// A sequence holds itself.
proof fn lemma_has_self(s: Seq<char>)
    ensures
        has_substring(s, s),
{
    let i: int = 0;
    assert(s.subrange(i, i + s.len()) =~= s);
    assert(0 <= i && i + s.len() <= s.len() && s.subrange(i, i + s.len()) == s);
}

/// Message search law: matching ignores letter case on both sides. A
/// message whose summary equals the query up to case is found; the found
/// messages are the searched ones, in order, each with a summary that holds
/// the query up to case; and queries, or summaries, that agree up to case
/// match alike.
pub proof fn law_message_search_ignores_case(s: Seq<ChatMessage>, q: Seq<char>, p: Seq<char>, m: ChatMessage, n: ChatMessage)
    ensures
        spec_to_lowercase(m.content.spec_summary()) == spec_to_lowercase(q) ==> summary_matches(m, q),
        spec_to_lowercase(q) == spec_to_lowercase(p) ==> summary_matches(m, q) == summary_matches(m, p),
        spec_to_lowercase(m.content.spec_summary()) == spec_to_lowercase(n.content.spec_summary()) ==> summary_matches(m, q)
            == summary_matches(n, q),
        summary_matches(m, q) == has_substring(spec_to_lowercase(m.content.spec_summary()), spec_to_lowercase(q)),
        forall|i: int| 0 <= i < s.len() && spec_to_lowercase((#[trigger] s[i]).content.spec_summary()) == spec_to_lowercase(q)
            ==> matching(s, q).contains(s[i]),
        forall|i: int| 0 <= i < matching(s, q).len() ==> s.contains(#[trigger] matching(s, q)[i]) && has_substring(
            spec_to_lowercase(matching(s, q)[i].content.spec_summary()),
            spec_to_lowercase(q),
        ),
        matching(s, q).len() <= s.len(),
    decreases s.len(),
{
    lemma_has_self(spec_to_lowercase(q));
    if s.len() > 0 {
        law_message_search_ignores_case(s.drop_last(), q, p, m, n);
        lemma_has_self(spec_to_lowercase(q));
        let rest = matching(s.drop_last(), q);
        let tail = if summary_matches(s.last(), q) {
            seq![s.last()]
        } else {
            Seq::<ChatMessage>::empty()
        };
        assert(matching(s, q) == rest + tail);
        assert forall|i: int| 0 <= i < s.len() && spec_to_lowercase((#[trigger] s[i]).content.spec_summary())
            == spec_to_lowercase(q) implies matching(s, q).contains(s[i]) by {
            if i < s.len() - 1 {
                assert(s.drop_last()[i] == s[i]);
                let k = choose|k: int| 0 <= k < rest.len() && rest[k] == s[i];
                assert((rest + tail)[k] == s[i]);
            } else {
                assert(summary_matches(s.last(), q));
                assert((rest + tail)[rest.len() as int] == s[i]);
            }
        }
        assert forall|i: int| 0 <= i < matching(s, q).len() implies s.contains(#[trigger] matching(s, q)[i])
            && has_substring(spec_to_lowercase(matching(s, q)[i].content.spec_summary()), spec_to_lowercase(q)) by {
            if i < rest.len() {
                assert(matching(s, q)[i] == rest[i]);
                let k = choose|k: int| 0 <= k < s.drop_last().len() && s.drop_last()[k] == rest[i];
                assert(s[k] == rest[i]);
            } else {
                assert(matching(s, q)[i] == s.last());
                assert(s[s.len() - 1] == s.last());
            }
        }
    }
}


impl MessageService {
    /// Message order law: a conversation's listing holds its stored messages
    /// in ascending order of sequence, then send time, then client id, so
    /// history and search, which read it backwards, give the newest first.
    pub proof fn law_listing_ascending(self, conversation_id: Seq<char>)
        ensures
            forall|i: int, j: int|
                #![trigger listing(self.view(), conversation_id)[i], listing(self.view(), conversation_id)[j]]
                0 <= i < j < listing(self.view(), conversation_id).len() ==> {
                    ||| listing(self.view(), conversation_id)[i].seq < listing(self.view(), conversation_id)[j].seq
                    ||| listing(self.view(), conversation_id)[i].seq == listing(self.view(), conversation_id)[j].seq
                        && listing(self.view(), conversation_id)[i].send_time < listing(self.view(), conversation_id)[j].send_time
                    ||| listing(self.view(), conversation_id)[i].seq == listing(self.view(), conversation_id)[j].seq
                        && listing(self.view(), conversation_id)[i].send_time == listing(self.view(), conversation_id)[j].send_time
                        && seq_lt(
                        listing(self.view(), conversation_id)[i].client_msg_id@,
                        listing(self.view(), conversation_id)[j].client_msg_id@,
                    )
                },
    {
        self.law_listing_lists_conversation(conversation_id);
        let r = listing(self.view(), conversation_id);
        assert forall|i: int, j: int| 0 <= i < j < r.len() implies {
            ||| (#[trigger] r[i]).seq < (#[trigger] r[j]).seq
            ||| r[i].seq == r[j].seq && r[i].send_time < r[j].send_time
            ||| r[i].seq == r[j].seq && r[i].send_time == r[j].send_time && seq_lt(r[i].client_msg_id@, r[j].client_msg_id@)
        } by {
            assert(r[i].spec_before(&r[j]));
            assert(r[i].spec_key().0 == conversation_id && r[j].spec_key().0 == conversation_id);
            lemma_lt_strict_total(conversation_id, conversation_id, conversation_id);
        }
    }
}

} // verus!
