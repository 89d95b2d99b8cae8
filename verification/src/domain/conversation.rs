//! Conversations of each user: created and advanced by messages, read
//! state, drafts, pins, search and server sync.
use vstd::prelude::*;

use crate::domain::{
    apply_actions, apply_plan, distinct_sync_keys, fully_synced, lemma_listing_lists,
    lemma_scope_sync_mirrors, list_of, listing, lists_scope, mirrors_scope, summary_of, DomainSyncSummary,
};
use crate::errors::lemma_first_error_none;
use crate::errors::{
    empty_message, ensure_not_empty, ensure_pair, error_of, first_error, lemma_first_error_skip,
    pair_error, ErrorView, OpenImError,
};
use crate::keyed::{keyed_map, lists_exactly, Duplicate, Key, Keyed, KeyedStore, ListOrder};
use crate::domain::message::{snapshot_of, ChatMessage, MessageSnapshot};
use crate::sync::{diff_by, spec_diff, DiffOptions, SyncItem};
use crate::text::{
    contains_str, has_substring, lemma_lt_strict_total, lemma_pair_before, owned, pair_before, pair_before_exec,
    seq_lt, spec_to_lowercase, str_eq, to_lowercase,
};
use crate::types::{paginate, spec_page, Pagination, SessionType};

verus! {

#[derive(Debug, Clone, PartialEq, Eq)]
pub struct ConversationInfo {
    pub owner_user_id: String,
    pub conversation_id: String,
    pub conversation_type: SessionType,
    pub user_id: String,
    pub group_id: String,
    pub show_name: String,
    pub face_url: String,
    pub recv_msg_opt: i32,
    pub unread_count: u32,
    pub latest_message: Option<MessageSnapshot>,
    pub latest_msg_send_time: i64,
    pub draft_text: String,
    pub draft_text_time: i64,
    pub is_pinned: bool,
    pub max_seq: i64,
    pub min_seq: i64,
    pub ex: String,
}

/// Field-by-field equality of two snapshots.
pub open spec fn snapshot_same(a: MessageSnapshot, b: MessageSnapshot) -> bool {
    &&& a.client_msg_id@ == b.client_msg_id@
    &&& a.sender_user_id@ == b.sender_user_id@
    &&& a.content_type == b.content_type
    &&& a.summary@ == b.summary@
    &&& a.send_time == b.send_time
    &&& a.seq == b.seq
}

fn snapshot_equal(a: &MessageSnapshot, b: &MessageSnapshot) -> (r: bool)
    ensures
        r == snapshot_same(*a, *b),
{
    a.client_msg_id.eq(&b.client_msg_id) && a.sender_user_id.eq(&b.sender_user_id)
        && a.content_type == b.content_type && a.summary.eq(&b.summary) && a.send_time
        == b.send_time && a.seq == b.seq
}

/// Field-by-field equality of two conversations.
pub open spec fn conversation_same(a: ConversationInfo, b: ConversationInfo) -> bool {
    &&& a.owner_user_id@ == b.owner_user_id@
    &&& a.conversation_id@ == b.conversation_id@
    &&& a.conversation_type == b.conversation_type
    &&& a.user_id@ == b.user_id@
    &&& a.group_id@ == b.group_id@
    &&& a.show_name@ == b.show_name@
    &&& a.face_url@ == b.face_url@
    &&& a.recv_msg_opt == b.recv_msg_opt
    &&& a.unread_count == b.unread_count
    &&& match (a.latest_message, b.latest_message) {
        (Some(x), Some(y)) => snapshot_same(x, y),
        (None, None) => true,
        _ => false,
    }
    &&& a.latest_msg_send_time == b.latest_msg_send_time
    &&& a.draft_text@ == b.draft_text@
    &&& a.draft_text_time == b.draft_text_time
    &&& a.is_pinned == b.is_pinned
    &&& a.max_seq == b.max_seq
    &&& a.min_seq == b.min_seq
    &&& a.ex@ == b.ex@
}

impl Duplicate for ConversationInfo {
    fn duplicate(&self) -> (r: ConversationInfo)
        ensures
            r == *self,
    {
        ConversationInfo {
            owner_user_id: self.owner_user_id.clone(),
            conversation_id: self.conversation_id.clone(),
            conversation_type: self.conversation_type,
            user_id: self.user_id.clone(),
            group_id: self.group_id.clone(),
            show_name: self.show_name.clone(),
            face_url: self.face_url.clone(),
            recv_msg_opt: self.recv_msg_opt,
            unread_count: self.unread_count,
            latest_message: match &self.latest_message {
                Some(s) => Some(s.duplicate()),
                None => None,
            },
            latest_msg_send_time: self.latest_msg_send_time,
            draft_text: self.draft_text.clone(),
            draft_text_time: self.draft_text_time,
            is_pinned: self.is_pinned,
            max_seq: self.max_seq,
            min_seq: self.min_seq,
            ex: self.ex.clone(),
        }
    }
}

impl Keyed for ConversationInfo {
    open spec fn spec_key(&self) -> Key {
        (self.owner_user_id@, self.conversation_id@)
    }

    fn key_is(&self, scope: &str, id: &str) -> (r: bool) {
        str_eq(self.owner_user_id.as_str(), scope) && str_eq(self.conversation_id.as_str(), id)
    }

    fn same_key(&self, other: &Self) -> (r: bool) {
        self.owner_user_id.eq(&other.owner_user_id) && self.conversation_id.eq(
            &other.conversation_id,
        )
    }

    fn in_scope(&self, scope: &str) -> (r: bool) {
        str_eq(self.owner_user_id.as_str(), scope)
    }
}

/// Conversation order: pinned ones first, then the most recent latest
/// message first, then by conversation id (and owner).
pub open spec fn conversation_before(a: ConversationInfo, b: ConversationInfo) -> bool {
    (a.is_pinned && !b.is_pinned) || (a.is_pinned == b.is_pinned && (a.latest_msg_send_time
        > b.latest_msg_send_time || (a.latest_msg_send_time == b.latest_msg_send_time
        && pair_before((a.conversation_id@, a.owner_user_id@), (b.conversation_id@, b.owner_user_id@)))))
}

impl ListOrder for ConversationInfo {
    open spec fn spec_before(&self, other: &Self) -> bool {
        conversation_before(*self, *other)
    }

    fn before(&self, other: &Self) -> (r: bool) {
        if self.is_pinned != other.is_pinned {
            self.is_pinned
        } else if self.latest_msg_send_time != other.latest_msg_send_time {
            self.latest_msg_send_time > other.latest_msg_send_time
        } else {
            pair_before_exec(
                self.conversation_id.as_str(),
                self.owner_user_id.as_str(),
                other.conversation_id.as_str(),
                other.owner_user_id.as_str(),
            )
        }
    }

    proof fn lemma_strict_total(a: Self, b: Self, c: Self) {
        lemma_pair_before(
            (a.conversation_id@, a.owner_user_id@),
            (b.conversation_id@, b.owner_user_id@),
            (c.conversation_id@, c.owner_user_id@),
        );
    }
}

impl SyncItem for ConversationInfo {
    open spec fn sync_key(&self) -> Seq<char> {
        self.conversation_id@
    }

    open spec fn same_value(&self, other: &Self) -> bool {
        conversation_same(*self, *other)
    }

    fn sync_id(&self) -> (r: String) {
        self.conversation_id.clone()
    }

    fn same_sync_key(&self, other: &Self) -> (r: bool) {
        self.conversation_id.eq(&other.conversation_id)
    }

    fn same(&self, other: &Self) -> (r: bool) {
        let latest_same = match (&self.latest_message, &other.latest_message) {
            (Some(x), Some(y)) => snapshot_equal(x, y),
            (None, None) => true,
            _ => false,
        };
        self.owner_user_id.eq(&other.owner_user_id) && self.conversation_id.eq(
            &other.conversation_id,
        ) && self.conversation_type == other.conversation_type && self.user_id.eq(&other.user_id)
            && self.group_id.eq(&other.group_id) && self.show_name.eq(&other.show_name)
            && self.face_url.eq(&other.face_url) && self.recv_msg_opt == other.recv_msg_opt
            && self.unread_count == other.unread_count && latest_same
            && self.latest_msg_send_time == other.latest_msg_send_time && self.draft_text.eq(
            &other.draft_text,
        ) && self.draft_text_time == other.draft_text_time && self.is_pinned == other.is_pinned
            && self.max_seq == other.max_seq && self.min_seq == other.min_seq && self.ex.eq(
            &other.ex,
        )
    }
}

/// The other party of a message for its owner: in a single chat or
/// notification the user on the other side, else the group.
pub open spec fn peer_of(owner: Seq<char>, m: ChatMessage) -> Seq<char> {
    if m.send_id@ == owner {
        m.recv_id@
    } else {
        m.send_id@
    }
}

/// What keeps a conversation from being made from a message.
pub open spec fn target_error(owner: Seq<char>, m: ChatMessage) -> Option<ErrorView> {
    if m.session_type.is_peer() {
        if peer_of(owner, m).len() == 0 {
            Some(error_of(10002, empty_message("user_id"@)))
        } else {
            None
        }
    } else if m.group_id@.len() == 0 {
        Some(error_of(10002, empty_message("group_id"@)))
    } else {
        None
    }
}

/// The error of `ConversationInfo::from_message`.
pub open spec fn from_message_error(owner: Seq<char>, m: ChatMessage) -> Option<ErrorView> {
    if owner.len() == 0 {
        Some(error_of(10002, empty_message("owner_user_id"@)))
    } else {
        target_error(owner, m)
    }
}

/// `c` is the fresh conversation of `owner` for message `m`.
pub open spec fn fresh_conversation(owner: Seq<char>, m: ChatMessage, c: ConversationInfo) -> bool {
    &&& c.owner_user_id@ == owner
    &&& c.conversation_id@ == m.conversation_id@
    &&& c.conversation_type == m.session_type
    &&& c.user_id@ == (if m.session_type.is_peer() {
        peer_of(owner, m)
    } else {
        Seq::empty()
    })
    &&& c.group_id@ == (if m.session_type.is_peer() {
        Seq::empty()
    } else {
        m.group_id@
    })
    &&& c.show_name@ == (if m.session_type.is_peer() {
        peer_of(owner, m)
    } else {
        m.group_id@
    })
    &&& c.face_url@.len() == 0
    &&& c.recv_msg_opt == 0
    &&& c.unread_count == 0
    &&& c.latest_message is None
    &&& c.latest_msg_send_time == 0
    &&& c.draft_text@.len() == 0
    &&& c.draft_text_time == 0
    &&& !c.is_pinned
    &&& c.max_seq == 0
    &&& c.min_seq == 0
    &&& c.ex@.len() == 0
}

/// The (user, group, show name) a message gives its owner's conversation.
fn conversation_target(owner_user_id: &str, message: &ChatMessage) -> (r: Result<
    (String, String, String),
    OpenImError,
>)
    ensures
        r is Ok <==> target_error(owner_user_id@, *message) is None,
        r matches Err(e) ==> Some(e@) == target_error(owner_user_id@, *message),
        r matches Ok(t) ==> {
            &&& t.0@ == (if message.session_type.is_peer() {
                peer_of(owner_user_id@, *message)
            } else {
                Seq::empty()
            })
            &&& t.1@ == (if message.session_type.is_peer() {
                Seq::empty()
            } else {
                message.group_id@
            })
            &&& t.2@ == (if message.session_type.is_peer() {
                peer_of(owner_user_id@, *message)
            } else {
                message.group_id@
            })
        },
{
    match message.session_type {
        SessionType::Single | SessionType::Notification => {
            let user_id = if str_eq(message.send_id.as_str(), owner_user_id) {
                message.recv_id.clone()
            } else {
                message.send_id.clone()
            };
            ensure_not_empty(user_id.as_str(), "user_id")?;
            let show_name = user_id.clone();
            Ok((user_id, String::new(), show_name))
        },
        SessionType::WriteGroup | SessionType::ReadGroup => {
            ensure_not_empty(message.group_id.as_str(), "group_id")?;
            Ok((String::new(), message.group_id.clone(), message.group_id.clone()))
        },
    }
}

impl ConversationInfo {
    /// A new conversation of the owner for a message: routed to the other
    /// user or the group, with nothing read, drafted or pinned.
    pub fn from_message(owner_user_id: &str, message: &ChatMessage) -> (r: Result<
        ConversationInfo,
        OpenImError,
    >)
        ensures
            r is Ok <==> from_message_error(owner_user_id@, *message) is None,
            r matches Err(e) ==> Some(e@) == from_message_error(owner_user_id@, *message),
            r matches Ok(c) ==> fresh_conversation(owner_user_id@, *message, c),
    {
        ensure_not_empty(owner_user_id, "owner_user_id")?;
        let (user_id, group_id, show_name) = conversation_target(owner_user_id, message)?;
        Ok(
            ConversationInfo {
                owner_user_id: owned(owner_user_id),
                conversation_id: message.conversation_id.clone(),
                conversation_type: message.session_type,
                user_id,
                group_id,
                show_name,
                face_url: String::new(),
                recv_msg_opt: 0,
                unread_count: 0,
                latest_message: None,
                latest_msg_send_time: 0,
                draft_text: String::new(),
                draft_text_time: 0,
                is_pinned: false,
                max_seq: 0,
                min_seq: 0,
                ex: String::new(),
            },
        )
    }
}

/// Whether a message becomes the conversation's latest one: always when
/// there is none; by sequence when both have one, a tie going to the
/// later-or-equal send time; else by send time.
pub open spec fn replaces_latest(c: ConversationInfo, m: ChatMessage) -> bool {
    match c.latest_message {
        None => true,
        Some(latest) => if m.seq > 0 && latest.seq > 0 {
            m.seq > latest.seq || (m.seq == latest.seq && m.send_time >= latest.send_time)
        } else {
            m.send_time >= latest.send_time
        },
    }
}

fn should_replace_latest(conversation: &ConversationInfo, message: &ChatMessage) -> (r: bool)
    ensures
        r == replaces_latest(*conversation, *message),
{
    match &conversation.latest_message {
        None => true,
        Some(latest) => {
            if message.seq > 0 && latest.seq > 0 {
                message.seq > latest.seq || (message.seq == latest.seq && message.send_time
                    >= latest.send_time)
            } else {
                message.send_time >= latest.send_time
            }
        },
    }
}

/// Whether a message counts as unread for the owner: not the owner's own,
/// not read, not revoked.
pub open spec fn counts_unread(owner: Seq<char>, m: ChatMessage) -> bool {
    m.send_id@ != owner && !m.is_read && !m.revoked
}

/// `r` is conversation `c` after message `m` reached its owner: the
/// highest sequence kept, the latest message replaced when it should be,
/// and the unread count raised (saturating) for an unread message.
pub open spec fn advanced(c: ConversationInfo, owner: Seq<char>, m: ChatMessage, r: ConversationInfo) -> bool {
    &&& r.max_seq == (if m.seq > c.max_seq {
        m.seq
    } else {
        c.max_seq
    })
    &&& if replaces_latest(c, m) {
        &&& r.latest_msg_send_time == m.send_time
        &&& r.latest_message matches Some(s) && snapshot_of(m, s)
    } else {
        &&& r.latest_msg_send_time == c.latest_msg_send_time
        &&& r.latest_message == c.latest_message
    }
    &&& r.unread_count == (if counts_unread(owner, m) {
        if c.unread_count == u32::MAX {
            u32::MAX
        } else {
            (c.unread_count + 1) as u32
        }
    } else {
        c.unread_count
    })
    &&& r == ConversationInfo {
        max_seq: r.max_seq,
        latest_msg_send_time: r.latest_msg_send_time,
        latest_message: r.latest_message,
        unread_count: r.unread_count,
        ..c
    }
}

/// Whether a conversation matches a query (lower-cased): by id, shown
/// name, draft, or latest message summary.
pub open spec fn conversation_matches(c: ConversationInfo, query: Seq<char>) -> bool {
    let q = spec_to_lowercase(query);
    ||| has_substring(spec_to_lowercase(c.conversation_id@), q)
    ||| has_substring(spec_to_lowercase(c.show_name@), q)
    ||| has_substring(spec_to_lowercase(c.draft_text@), q)
    ||| (c.latest_message matches Some(s) && has_substring(spec_to_lowercase(s.summary@), q))
}

fn matches_query(conversation: &ConversationInfo, lowered: &str) -> (r: bool)
    requires
        exists|q: Seq<char>| lowered@ == spec_to_lowercase(q),
    ensures
        forall|q: Seq<char>| lowered@ == spec_to_lowercase(q) ==> (r == conversation_matches(
            *conversation,
            q,
        )),
{
    let id = to_lowercase(conversation.conversation_id.as_str());
    if contains_str(id.as_str(), lowered) {
        return true;
    }
    let name = to_lowercase(conversation.show_name.as_str());
    if contains_str(name.as_str(), lowered) {
        return true;
    }
    let draft = to_lowercase(conversation.draft_text.as_str());
    if contains_str(draft.as_str(), lowered) {
        return true;
    }
    match &conversation.latest_message {
        Some(latest) => {
            let summary = to_lowercase(latest.summary.as_str());
            contains_str(summary.as_str(), lowered)
        },
        None => false,
    }
}

/// The conversations of `s` that match the query, in order.
pub open spec fn matching_conversations(s: Seq<ConversationInfo>, query: Seq<char>) -> Seq<
    ConversationInfo,
>
    decreases s.len(),
{
    if s.len() == 0 {
        Seq::empty()
    } else {
        matching_conversations(s.drop_last(), query) + if conversation_matches(s.last(), query) {
            seq![s.last()]
        } else {
            Seq::empty()
        }
    }
}

/// What is wrong with a conversation, if anything: empty owner or id, or
/// an empty user (single chat, notification) or group.
pub open spec fn conversation_error(c: ConversationInfo) -> Option<ErrorView> {
    match pair_error(c.owner_user_id@, "owner_user_id"@, c.conversation_id@, "conversation_id"@) {
        Some(e) => Some(e),
        None => if c.conversation_type.is_peer() {
            if c.user_id@.len() == 0 {
                Some(error_of(10002, empty_message("user_id"@)))
            } else {
                None
            }
        } else if c.group_id@.len() == 0 {
            Some(error_of(10002, empty_message("group_id"@)))
        } else {
            None
        },
    }
}

fn validate_conversation(conversation: &ConversationInfo) -> (r: Result<(), OpenImError>)
    ensures
        r is Ok <==> conversation_error(*conversation) is None,
        r matches Err(e) ==> Some(e@) == conversation_error(*conversation),
{
    ensure_pair(
        conversation.owner_user_id.as_str(),
        "owner_user_id",
        conversation.conversation_id.as_str(),
        "conversation_id",
    )?;
    match conversation.conversation_type {
        SessionType::Single | SessionType::Notification => {
            ensure_not_empty(conversation.user_id.as_str(), "user_id")?;
        },
        SessionType::WriteGroup | SessionType::ReadGroup => {
            ensure_not_empty(conversation.group_id.as_str(), "group_id")?;
        },
    }
    Ok(())
}

/// The error a server conversation raises during a sync of `owner`.
pub open spec fn server_conversation_error(owner: Seq<char>, c: ConversationInfo) -> Option<ErrorView> {
    match conversation_error(c) {
        Some(e) => Some(e),
        None => if c.owner_user_id@ != owner {
            Some(error_of(10002, "server conversation owner_user_id mismatch"@))
        } else {
            None
        },
    }
}

pub open spec fn server_check(owner: Seq<char>) -> spec_fn(ConversationInfo) -> Option<ErrorView> {
    |c: ConversationInfo| server_conversation_error(owner, c)
}

/// The error of a sync request: an empty owner, or the first bad item.
pub open spec fn conversation_sync_error(owner: Seq<char>, items: Seq<ConversationInfo>) -> Option<
    ErrorView,
> {
    if owner.len() == 0 {
        Some(error_of(10002, empty_message("owner_user_id"@)))
    } else {
        first_error(items, server_check(owner))
    }
}

/// The error for a lookup of one conversation: empty ids first, then a
/// missing conversation.
pub open spec fn lookup_error(m: Map<Key, ConversationInfo>, owner: Seq<char>, id: Seq<char>) -> Option<
    ErrorView,
> {
    match pair_error(owner, "owner_user_id"@, id, "conversation_id"@) {
        Some(e) => Some(e),
        None => if !m.contains_key((owner, id)) {
            Some(error_of(10002, "conversation not found"@))
        } else {
            None
        },
    }
}

/// The sum of the unread counts of a sequence of conversations.
pub open spec fn unread_sum(s: Seq<ConversationInfo>) -> int
    decreases s.len(),
{
    if s.len() == 0 {
        0
    } else {
        unread_sum(s.drop_last()) + s.last().unread_count
    }
}

/// `m` with the unread count of each conversation of `owner` set to zero.
pub open spec fn all_read(m: Map<Key, ConversationInfo>, owner: Seq<char>) -> Map<Key, ConversationInfo> {
    Map::new(
        |k: Key| m.contains_key(k),
        |k: Key| if k.0 == owner {
            ConversationInfo { unread_count: 0, ..m[k] }
        } else {
            m[k]
        },
    )
}

/// `m` with the unread count of each conversation listed in `s` set to zero.
pub open spec fn read_each(m: Map<Key, ConversationInfo>, s: Seq<ConversationInfo>) -> Map<
    Key,
    ConversationInfo,
>
    decreases s.len(),
{
    if s.len() == 0 {
        m
    } else {
        read_each(m, s.drop_last()).insert(
            s.last().spec_key(),
            ConversationInfo { unread_count: 0, ..s.last() },
        )
    }
}

/// Reading each listed conversation of `owner` is reading all of them.
proof fn lemma_read_each(m: Map<Key, ConversationInfo>, owner: Seq<char>, s: Seq<ConversationInfo>, n: int)
    requires
        lists_scope(s, m, owner),
        0 <= n <= s.len(),
    ensures
        forall|k: Key| #[trigger] read_each(m, s.take(n)).contains_key(k) <==> m.contains_key(k),
        forall|k: Key|
            #[trigger] read_each(m, s.take(n)).contains_key(k) ==> read_each(m, s.take(n))[k] == (
            if exists|j: int| 0 <= j < n && s[j].spec_key() == k {
                ConversationInfo { unread_count: 0, ..m[k] }
            } else {
                m[k]
            }),
    decreases n,
{
    if n > 0 {
        lemma_read_each(m, owner, s, n - 1);
        assert(s.take(n).drop_last() =~= s.take(n - 1));
        assert(s.take(n).last() == s[n - 1]);
        let prev = read_each(m, s.take(n - 1));
        assert(m.contains_key(s[n - 1].spec_key()) && m[s[n - 1].spec_key()] == s[n - 1]);
        assert forall|k: Key| #[trigger] read_each(m, s.take(n)).contains_key(k) implies read_each(
            m,
            s.take(n),
        )[k] == (if exists|j: int| 0 <= j < n && s[j].spec_key() == k {
            ConversationInfo { unread_count: 0, ..m[k] }
        } else {
            m[k]
        }) by {
            if k == s[n - 1].spec_key() {
                assert(exists|j: int| 0 <= j < n && s[j].spec_key() == k);
            } else {
                if exists|j: int| 0 <= j < n && s[j].spec_key() == k {
                    let j = choose|j: int| 0 <= j < n && s[j].spec_key() == k;
                    assert(j != n - 1);
                    assert(exists|j: int| 0 <= j < n - 1 && s[j].spec_key() == k);
                } else {
                    assert(!exists|j: int| 0 <= j < n - 1 && s[j].spec_key() == k);
                }
            }
        }
    } else {
        assert(s.take(0) =~= Seq::<ConversationInfo>::empty());
    }
}

/// A repository of conversations.
pub trait ConversationRepository {
    fn save_conversation(&mut self, conversation: ConversationInfo) -> Result<(), OpenImError>;

    fn remove_conversation(&mut self, owner_user_id: &str, conversation_id: &str) -> Result<
        (),
        OpenImError,
    >;

    fn load_conversations(&self, owner_user_id: &str) -> Result<Vec<ConversationInfo>, OpenImError>;
}

/// Conversations, keyed by owner and conversation id.
pub struct ConversationService {
    conversations: KeyedStore<ConversationInfo>,
}

impl Default for ConversationService {
    fn default() -> (r: ConversationService)
        ensures
            r.view() == Map::<Key, ConversationInfo>::empty(),
    {
        ConversationService::new()
    }
}

impl ConversationService {
    pub closed spec fn view(&self) -> Map<Key, ConversationInfo> {
        self.conversations.view()
    }

    pub fn new() -> (r: ConversationService)
        ensures
            r.view() == Map::<Key, ConversationInfo>::empty(),
    {
        ConversationService { conversations: KeyedStore::new() }
    }

    /// Stores a valid conversation under its key.
    pub fn upsert_conversation(&mut self, conversation: ConversationInfo) -> (r: Result<
        (),
        OpenImError,
    >)
        ensures
            r is Ok <==> conversation_error(conversation) is None,
            r matches Err(e) ==> Some(e@) == conversation_error(conversation) && final(self).view()
                == old(self).view(),
            r is Ok ==> final(self).view() == old(self).view().insert(
                conversation.spec_key(),
                conversation,
            ),
    {
        validate_conversation(&conversation)?;
        self.conversations.upsert(conversation);
        Ok(())
    }

    pub fn get_conversation(&self, owner_user_id: &str, conversation_id: &str) -> (r: Result<
        Option<ConversationInfo>,
        OpenImError,
    >)
        ensures
            r is Ok <==> pair_error(owner_user_id@, "owner_user_id"@, conversation_id@, "conversation_id"@) is None,
            r matches Err(e) ==> Some(e@) == pair_error(owner_user_id@, "owner_user_id"@, conversation_id@, "conversation_id"@),
            r matches Ok(o) ==> (o is Some <==> self.view().contains_key(
                (owner_user_id@, conversation_id@),
            )),
            r matches Ok(Some(c)) ==> c == self.view()[(owner_user_id@, conversation_id@)],
    {
        ensure_pair(owner_user_id, "owner_user_id", conversation_id, "conversation_id")?;
        match self.conversations.get(owner_user_id, conversation_id) {
            Some(c) => Ok(Some(c.duplicate())),
            None => Ok(None),
        }
    }

    pub fn delete_conversation(&mut self, owner_user_id: &str, conversation_id: &str) -> (r: Result<
        (),
        OpenImError,
    >)
        ensures
            r is Ok <==> pair_error(owner_user_id@, "owner_user_id"@, conversation_id@, "conversation_id"@) is None,
            r matches Err(e) ==> Some(e@) == pair_error(owner_user_id@, "owner_user_id"@, conversation_id@, "conversation_id"@)
                && final(self).view() == old(self).view(),
            r is Ok ==> final(self).view() == old(self).view().remove(
                (owner_user_id@, conversation_id@),
            ),
    {
        ensure_pair(owner_user_id, "owner_user_id", conversation_id, "conversation_id")?;
        self.conversations.remove(owner_user_id, conversation_id);
        Ok(())
    }

    /// The owner's conversations: pinned first, then the most recent.
    pub fn all_conversations(&self, owner_user_id: &str) -> (r: Result<
        Vec<ConversationInfo>,
        OpenImError,
    >)
        ensures
            r is Ok <==> owner_user_id@.len() > 0,
            r matches Err(e) ==> e@ == error_of(10002, empty_message("owner_user_id"@)),
            r matches Ok(v) ==> v@ == listing(self.view(), owner_user_id@),
    {
        ensure_not_empty(owner_user_id, "owner_user_id")?;
        Ok(list_of(&self.conversations, owner_user_id))
    }

    /// One page of the owner's conversations.
    pub fn paged_conversations(&self, owner_user_id: &str, pagination: Pagination) -> (r: Result<
        Vec<ConversationInfo>,
        OpenImError,
    >)
        ensures
            r is Ok <==> owner_user_id@.len() > 0,
            r matches Err(e) ==> e@ == error_of(10002, empty_message("owner_user_id"@)),
            r matches Ok(v) ==> v@ == spec_page(listing(self.view(), owner_user_id@), pagination),
    {
        let all = self.all_conversations(owner_user_id)?;
        Ok(paginate(all, pagination))
    }

    /// Advances the owner's conversation of a message (creating it first
    /// when there is none) and returns it.
    pub fn apply_message(&mut self, owner_user_id: &str, message: &ChatMessage) -> (r: Result<
        ConversationInfo,
        OpenImError,
    >)
        ensures
            ({
                let key = (owner_user_id@, message.conversation_id@);
                let error = if owner_user_id@.len() == 0 || old(self).view().contains_key(key) {
                    None
                } else {
                    target_error(owner_user_id@, *message)
                };
                &&& r is Ok <==> owner_user_id@.len() > 0 && error is None
                &&& owner_user_id@.len() == 0 ==> (r matches Err(e) && e@ == error_of(
                    10002,
                    empty_message("owner_user_id"@),
                ))
                &&& error matches Some(x) ==> (r matches Err(e) && e@ == x)
                &&& r is Err ==> final(self).view() == old(self).view()
                &&& r matches Ok(c) ==> {
                    &&& final(self).view() == old(self).view().insert(key, c)
                    &&& old(self).view().contains_key(key) ==> advanced(
                        old(self).view()[key],
                        owner_user_id@,
                        *message,
                        c,
                    )
                    &&& !old(self).view().contains_key(key) ==> exists|f: ConversationInfo|
                        fresh_conversation(owner_user_id@, *message, f) && advanced(
                            f,
                            owner_user_id@,
                            *message,
                            c,
                        )
                }
            }),
    {
        ensure_not_empty(owner_user_id, "owner_user_id")?;
        let mut conversation = match self.conversations.get(
            owner_user_id,
            message.conversation_id.as_str(),
        ) {
            Some(c) => c.duplicate(),
            None => ConversationInfo::from_message(owner_user_id, message)?,
        };
        let ghost start = conversation;
        if message.seq > conversation.max_seq {
            conversation.max_seq = message.seq;
        }
        if should_replace_latest(&conversation, message) {
            conversation.latest_msg_send_time = message.send_time;
            conversation.latest_message = Some(MessageSnapshot::from_message(message));
        }
        if !str_eq(message.send_id.as_str(), owner_user_id) && !message.is_read && !message.revoked {
            conversation.unread_count = conversation.unread_count.saturating_add(1);
        }
        assert(conversation.spec_key() == (owner_user_id@, message.conversation_id@));
        assert(advanced(start, owner_user_id@, *message, conversation));
        self.conversations.upsert(conversation.duplicate());
        Ok(conversation)
    }

    /// Clears the unread count of one conversation; returns what it was.
    pub fn mark_conversation_read(&mut self, owner_user_id: &str, conversation_id: &str) -> (r:
        Result<u32, OpenImError>)
        ensures
            r is Ok <==> lookup_error(old(self).view(), owner_user_id@, conversation_id@) is None,
            r matches Err(e) ==> Some(e@) == lookup_error(old(self).view(), owner_user_id@, conversation_id@)
                && final(self).view() == old(self).view(),
            r matches Ok(n) ==> {
                let key = (owner_user_id@, conversation_id@);
                &&& n == old(self).view()[key].unread_count
                &&& final(self).view() == old(self).view().insert(
                    key,
                    ConversationInfo { unread_count: 0, ..old(self).view()[key] },
                )
            },
    {
        let mut conversation = self.conversation_of(owner_user_id, conversation_id)?;
        let previous = conversation.unread_count;
        conversation.unread_count = 0;
        self.conversations.upsert(conversation);
        Ok(previous)
    }

    /// Clears the unread count of every conversation of the owner; returns
    /// the sum of what they were.
    pub fn mark_all_read(&mut self, owner_user_id: &str) -> (r: Result<u32, OpenImError>)
        requires
            owner_user_id@.len() > 0 ==> unread_sum(listing(old(self).view(), owner_user_id@))
                <= u32::MAX,
        ensures
            r is Ok <==> owner_user_id@.len() > 0,
            r matches Err(e) ==> e@ == error_of(10002, empty_message("owner_user_id"@))
                && final(self).view() == old(self).view(),
            r matches Ok(n) ==> n == unread_sum(listing(old(self).view(), owner_user_id@))
                && final(self).view() == all_read(old(self).view(), owner_user_id@),
    {
        ensure_not_empty(owner_user_id, "owner_user_id")?;
        let ghost m = self.view();
        let listed = list_of(&self.conversations, owner_user_id);
        let ghost s = listed@;
        proof {
            assert(lists_scope(s, m, owner_user_id@));
        }
        let mut cleared: u32 = 0;
        let mut i: usize = 0;
        assert(s.take(0) =~= Seq::<ConversationInfo>::empty());
        while i < listed.len()
            invariant
                s == listed@,
                lists_scope(s, m, owner_user_id@),
                unread_sum(s) <= u32::MAX,
                i <= s.len(),
                cleared == unread_sum(s.take(i as int)),
                self.view() == read_each(m, s.take(i as int)),
            decreases listed.len() - i,
        {
            let c = &listed[i];
            assert(s.take(i + 1).drop_last() =~= s.take(i as int));
            assert(s.take(i + 1).last() == s[i as int]);
            proof {
                lemma_unread_prefix(s, i + 1);
            }
            cleared = cleared + c.unread_count;
            let mut read = c.duplicate();
            read.unread_count = 0;
            self.conversations.upsert(read);
            i = i + 1;
        }
        assert(s.take(i as int) =~= s);
        proof {
            lemma_read_each(m, owner_user_id@, s, s.len() as int);
            assert(s.take(s.len() as int) =~= s);
            let target = all_read(m, owner_user_id@);
            assert forall|k: Key| #[trigger] self.view().contains_key(k) <==> target.contains_key(k) by {}
            assert forall|k: Key| #[trigger] self.view().contains_key(k) implies self.view()[k] == target[k] by {
                if k.0 == owner_user_id@ {
                    let j = choose|j: int| 0 <= j < s.len() && #[trigger] s[j].spec_key() == k;
                    assert(exists|j: int| 0 <= j < s.len() && s[j].spec_key() == k);
                } else {
                    if exists|j: int| 0 <= j < s.len() && s[j].spec_key() == k {
                        let j = choose|j: int| 0 <= j < s.len() && s[j].spec_key() == k;
                        assert(s[j].spec_key().0 == owner_user_id@);
                    }
                }
            }
            assert(self.view() =~= target);
        }
        Ok(cleared)
    }

    /// Sets the draft of one conversation and returns it.
    pub fn set_draft(
        &mut self,
        owner_user_id: &str,
        conversation_id: &str,
        draft_text: &str,
        draft_text_time: i64,
    ) -> (r: Result<ConversationInfo, OpenImError>)
        ensures
            r is Ok <==> lookup_error(old(self).view(), owner_user_id@, conversation_id@) is None,
            r matches Err(e) ==> Some(e@) == lookup_error(old(self).view(), owner_user_id@, conversation_id@)
                && final(self).view() == old(self).view(),
            r matches Ok(c) ==> {
                let key = (owner_user_id@, conversation_id@);
                &&& c.draft_text@ == draft_text@
                &&& c == ConversationInfo {
                    draft_text: c.draft_text,
                    draft_text_time,
                    ..old(self).view()[key]
                }
                &&& final(self).view() == old(self).view().insert(key, c)
            },
    {
        let mut conversation = self.conversation_of(owner_user_id, conversation_id)?;
        conversation.draft_text = owned(draft_text);
        conversation.draft_text_time = draft_text_time;
        self.conversations.upsert(conversation.duplicate());
        Ok(conversation)
    }

    /// Pins or unpins one conversation and returns it.
    pub fn set_pinned(&mut self, owner_user_id: &str, conversation_id: &str, is_pinned: bool) -> (r:
        Result<ConversationInfo, OpenImError>)
        ensures
            r is Ok <==> lookup_error(old(self).view(), owner_user_id@, conversation_id@) is None,
            r matches Err(e) ==> Some(e@) == lookup_error(old(self).view(), owner_user_id@, conversation_id@)
                && final(self).view() == old(self).view(),
            r matches Ok(c) ==> {
                let key = (owner_user_id@, conversation_id@);
                &&& c == ConversationInfo { is_pinned, ..old(self).view()[key] }
                &&& final(self).view() == old(self).view().insert(key, c)
            },
    {
        let mut conversation = self.conversation_of(owner_user_id, conversation_id)?;
        conversation.is_pinned = is_pinned;
        self.conversations.upsert(conversation.duplicate());
        Ok(conversation)
    }

    /// The sum of the unread counts of the owner's conversations.
    pub fn total_unread_count(&self, owner_user_id: &str) -> (r: Result<u32, OpenImError>)
        requires
            owner_user_id@.len() > 0 ==> unread_sum(listing(self.view(), owner_user_id@)) <= u32::MAX,
        ensures
            r is Ok <==> owner_user_id@.len() > 0,
            r matches Err(e) ==> e@ == error_of(10002, empty_message("owner_user_id"@)),
            r matches Ok(n) ==> n == unread_sum(listing(self.view(), owner_user_id@)),
    {
        ensure_not_empty(owner_user_id, "owner_user_id")?;
        let listed = list_of(&self.conversations, owner_user_id);
        let ghost s = listed@;
        let mut total: u32 = 0;
        let mut i: usize = 0;
        assert(s.take(0) =~= Seq::<ConversationInfo>::empty());
        while i < listed.len()
            invariant
                s == listed@,
                unread_sum(s) <= u32::MAX,
                i <= s.len(),
                total == unread_sum(s.take(i as int)),
            decreases listed.len() - i,
        {
            assert(s.take(i + 1).drop_last() =~= s.take(i as int));
            assert(s.take(i + 1).last() == s[i as int]);
            proof {
                lemma_unread_prefix(s, i + 1);
            }
            total = total + listed[i].unread_count;
            i = i + 1;
        }
        assert(s.take(i as int) =~= s);
        Ok(total)
    }

    /// One page of the owner's conversations that match the query (ignoring
    /// case), in the listing order.
    pub fn search_conversations(&self, owner_user_id: &str, query: &str, pagination: Pagination) -> (r:
        Result<Vec<ConversationInfo>, OpenImError>)
        ensures
            r is Ok <==> owner_user_id@.len() > 0 && query@.len() > 0,
            r matches Err(e) ==> e@ == (if owner_user_id@.len() == 0 {
                error_of(10002, empty_message("owner_user_id"@))
            } else {
                error_of(10002, empty_message("query"@))
            }),
            r matches Ok(v) ==> v@ == spec_page(
                matching_conversations(listing(self.view(), owner_user_id@), query@),
                pagination,
            ),
    {
        ensure_not_empty(owner_user_id, "owner_user_id")?;
        ensure_not_empty(query, "query")?;
        let lowered = to_lowercase(query);
        let listed = self.all_conversations(owner_user_id)?;
        let mut found: Vec<ConversationInfo> = Vec::new();
        let mut i: usize = 0;
        while i < listed.len()
            invariant
                i <= listed@.len(),
                lowered@ == spec_to_lowercase(query@),
                found@ == matching_conversations(listed@.take(i as int), query@),
            decreases listed.len() - i,
        {
            let c = &listed[i];
            assert(listed@.take(i + 1).drop_last() =~= listed@.take(i as int));
            if matches_query(c, lowered.as_str()) {
                found.push(c.duplicate());
            }
            i = i + 1;
        }
        assert(listed@.take(i as int) =~= listed@);
        Ok(paginate(found, pagination))
    }

    /// Makes the owner's conversations match the server's list: inserts
    /// and updates store server items, local ones missing from the server
    /// are removed; other owners' conversations are untouched.
    pub fn sync_conversations(&mut self, owner_user_id: &str, server_conversations: Vec<ConversationInfo>) -> (r:
        Result<DomainSyncSummary, OpenImError>)
        ensures
            r is Ok <==> conversation_sync_error(owner_user_id@, server_conversations@) is None,
            r matches Err(e) ==> Some(e@) == conversation_sync_error(owner_user_id@, server_conversations@)
                && final(self).view() == old(self).view(),
            r matches Ok(s) ==> {
                let plan = spec_diff(
                    server_conversations@,
                    listing(old(self).view(), owner_user_id@),
                    DiffOptions { skip_deletion: false, include_unchanged: true },
                );
                &&& final(self).view() == apply_actions(old(self).view(), plan)
                &&& s == summary_of(plan)
            },
    {
        ensure_not_empty(owner_user_id, "owner_user_id")?;
        let mut i: usize = 0;
        assert(server_conversations@.skip(0) =~= server_conversations@);
        while i < server_conversations.len()
            invariant
                i <= server_conversations@.len(),
                owner_user_id@.len() > 0,
                first_error(server_conversations@, server_check(owner_user_id@)) == first_error(
                    server_conversations@.skip(i as int),
                    server_check(owner_user_id@),
                ),
            decreases server_conversations.len() - i,
        {
            let c = &server_conversations[i];
            assert(server_conversations@.skip(i as int)[0] == *c);
            if let Err(e) = validate_conversation(c) {
                assert(first_error(server_conversations@.skip(i as int), server_check(owner_user_id@))
                    == Some(e@));
                return Err(e);
            }
            if !str_eq(c.owner_user_id.as_str(), owner_user_id) {
                let e = OpenImError::args("server conversation owner_user_id mismatch");
                assert(first_error(server_conversations@.skip(i as int), server_check(owner_user_id@))
                    == Some(e@));
                return Err(e);
            }
            proof {
                lemma_first_error_skip(server_conversations@, server_check(owner_user_id@), i as int);
            }
            i = i + 1;
        }
        assert(server_conversations@.skip(i as int) =~= Seq::<ConversationInfo>::empty());
        let local = list_of(&self.conversations, owner_user_id);
        let plan = diff_by(server_conversations.as_slice(), local.as_slice(), DiffOptions::default());
        Ok(apply_plan(&mut self.conversations, &plan.actions))
    }

    pub fn len(&self) -> (r: usize)
        ensures
            r == self.view().dom().len(),
    {
        self.conversations.len()
    }

    pub fn is_empty(&self) -> (r: bool)
        ensures
            r == (self.view().dom().len() == 0),
    {
        self.conversations.len() == 0
    }

    /// A copy of one stored conversation, or why there is none.
    fn conversation_of(&self, owner_user_id: &str, conversation_id: &str) -> (r: Result<
        ConversationInfo,
        OpenImError,
    >)
        ensures
            r is Ok <==> lookup_error(self.view(), owner_user_id@, conversation_id@) is None,
            r matches Err(e) ==> Some(e@) == lookup_error(self.view(), owner_user_id@, conversation_id@),
            r matches Ok(c) ==> c == self.view()[(owner_user_id@, conversation_id@)] && c.spec_key()
                == (owner_user_id@, conversation_id@),
    {
        ensure_pair(owner_user_id, "owner_user_id", conversation_id, "conversation_id")?;
        match self.conversations.get(owner_user_id, conversation_id) {
            Some(c) => Ok(c.duplicate()),
            None => Err(OpenImError::args("conversation not found")),
        }
    }
}

/// A prefix of a sequence has no larger unread sum.
proof fn lemma_unread_prefix(s: Seq<ConversationInfo>, n: int)
    requires
        0 <= n <= s.len(),
    ensures
        unread_sum(s.take(n)) <= unread_sum(s),
    decreases s.len() - n,
{
    if n < s.len() {
        lemma_unread_prefix(s, n + 1);
        assert(s.take(n + 1).drop_last() =~= s.take(n));
    } else {
        assert(s.take(n) =~= s);
    }
}

impl ConversationRepository for ConversationService {
    /// Stores a valid conversation under its key.
    fn save_conversation(&mut self, conversation: ConversationInfo) -> (r: Result<(), OpenImError>)
        ensures
            r is Ok <==> conversation_error(conversation) is None,
            r matches Err(e) ==> Some(e@) == conversation_error(conversation) && final(self).view()
                == old(self).view(),
            r is Ok ==> final(self).view() == old(self).view().insert(conversation.spec_key(), conversation),
    {
        self.upsert_conversation(conversation)
    }

    /// Removes the owner's conversation, if stored.
    fn remove_conversation(&mut self, owner_user_id: &str, conversation_id: &str) -> (r: Result<
        (),
        OpenImError,
    >)
        ensures
            r is Ok <==> pair_error(owner_user_id@, "owner_user_id"@, conversation_id@, "conversation_id"@) is None,
            r matches Err(e) ==> Some(e@) == pair_error(owner_user_id@, "owner_user_id"@, conversation_id@, "conversation_id"@)
                && final(self).view() == old(self).view(),
            r is Ok ==> final(self).view() == old(self).view().remove((owner_user_id@, conversation_id@)),
    {
        self.delete_conversation(owner_user_id, conversation_id)
    }

    /// The owner's conversations, in list order.
    fn load_conversations(&self, owner_user_id: &str) -> (r: Result<Vec<ConversationInfo>, OpenImError>)
        ensures
            r is Ok <==> owner_user_id@.len() > 0,
            r matches Err(e) ==> e@ == error_of(10002, empty_message("owner_user_id"@)),
            r matches Ok(v) ==> v@ == listing(self.view(), owner_user_id@),
    {
        self.all_conversations(owner_user_id)
    }
}


impl ConversationService {
    /// Conversation sync law: after a successful sync of `owner`'s
    /// conversations with server conversations of distinct ids, the owner has
    /// exactly one conversation per server conversation, holding its values,
    /// and the conversations of every other owner are as they were.
    pub proof fn law_conversation_sync_mirrors_server(self, owner: Seq<char>, server: Seq<ConversationInfo>)
        requires
            conversation_sync_error(owner, server) is None,
            distinct_sync_keys(server),
        ensures
            mirrors_scope(
                self.view(),
                owner,
                server,
                fully_synced(self.view(), server, listing(self.view(), owner)),
            ),
    {
        self.conversations.lemma_keyed();
        lemma_first_error_none(server, server_check(owner));
        assert forall|i: int| 0 <= i < server.len() implies (#[trigger] server[i].spec_key()).0 == owner by {
            assert(server_check(owner)(server[i]) is None);
        }
        lemma_scope_sync_mirrors(self.view(), owner, server);
    }
}


proof fn lemma_unread_zero(s: Seq<ConversationInfo>)
    requires
        forall|i: int| 0 <= i < s.len() ==> (#[trigger] s[i]).unread_count == 0,
    ensures
        unread_sum(s) == 0,
    decreases s.len(),
{
    if s.len() > 0 {
        assert forall|i: int| 0 <= i < s.drop_last().len() implies (#[trigger] s.drop_last()[i]).unread_count
            == 0 by {
            assert(s.drop_last()[i] == s[i]);
        }
        lemma_unread_zero(s.drop_last());
    }
}

impl ConversationService {
    /// Marking all of an owner's conversations read leaves that owner
    /// nothing unread, and every other owner's conversations as they were.
    pub proof fn law_all_read_leaves_nothing_unread(self, owner: Seq<char>)
        ensures
            unread_sum(listing(all_read(self.view(), owner), owner)) == 0,
            forall|k: Key| #[trigger] all_read(self.view(), owner).contains_key(k) && k.0 != owner ==> all_read(
                self.view(),
                owner,
            )[k] == self.view()[k],
    {
        let m = self.view();
        let after = all_read(m, owner);
        self.conversations.lemma_keyed();
        assert(after.dom() =~= m.dom());
        assert(keyed_map(after)) by {
            assert forall|k: Key| #[trigger] after.contains_key(k) implies after[k].spec_key() == k by {
                assert(m[k].spec_key() == k);
            }
        }
        lemma_listing_lists(after, owner);
        let l = listing(after, owner);
        assert forall|i: int| 0 <= i < l.len() implies (#[trigger] l[i]).unread_count == 0 by {
            assert(after.contains_key(l[i].spec_key()) && after[l[i].spec_key()] == l[i]);
        }
        lemma_unread_zero(l);
    }
}


impl ConversationService {
    /// Listing law: an owner's listing holds each of the owner's stored
    /// conversations once, as stored, in list order, and nothing else.
    pub proof fn law_listing_lists_owner(self, owner: Seq<char>)
        ensures
            lists_scope(listing(self.view(), owner), self.view(), owner),
    {
        self.conversations.lemma_keyed();
        lemma_listing_lists(self.view(), owner);
    }
}


impl ConversationService {
    /// Conversation order law: an owner's listing holds the owner's stored
    /// conversations and nothing else, pinned ones first, then the newest
    /// latest message first, then by conversation id.
    pub proof fn law_listing_order(self, owner: Seq<char>)
        ensures
            ({
                let r = listing(self.view(), owner);
                &&& forall|i: int| 0 <= i < r.len() ==> (#[trigger] r[i]).owner_user_id@ == owner
                    && self.view().contains_key(r[i].spec_key()) && self.view()[r[i].spec_key()] == r[i]
                &&& forall|k: Key| self.view().contains_key(k) && k.0 == owner ==> exists|i: int|
                    0 <= i < r.len() && #[trigger] r[i].spec_key() == k
                &&& forall|i: int, j: int| 0 <= i < j < r.len() ==> {
                    ||| (#[trigger] r[i]).is_pinned && !(#[trigger] r[j]).is_pinned
                    ||| r[i].is_pinned == r[j].is_pinned && r[i].latest_msg_send_time > r[j].latest_msg_send_time
                    ||| r[i].is_pinned == r[j].is_pinned && r[i].latest_msg_send_time == r[j].latest_msg_send_time
                        && seq_lt(r[i].conversation_id@, r[j].conversation_id@)
                }
            }),
    {
        self.law_listing_lists_owner(owner);
        let r = listing(self.view(), owner);
        let keep = |k: Key| k.0 == owner;
        assert(lists_exactly(r, self.view(), keep));
        assert forall|i: int| 0 <= i < r.len() implies (#[trigger] r[i]).owner_user_id@ == owner
            && self.view().contains_key(r[i].spec_key()) && self.view()[r[i].spec_key()] == r[i] by {
            assert(keep(r[i].spec_key()));
        }
        assert forall|k: Key| self.view().contains_key(k) && k.0 == owner implies exists|i: int|
            0 <= i < r.len() && #[trigger] r[i].spec_key() == k by {
            assert(keep(k));
        }
        assert forall|i: int, j: int| 0 <= i < j < r.len() implies {
            ||| (#[trigger] r[i]).is_pinned && !(#[trigger] r[j]).is_pinned
            ||| r[i].is_pinned == r[j].is_pinned && r[i].latest_msg_send_time > r[j].latest_msg_send_time
            ||| r[i].is_pinned == r[j].is_pinned && r[i].latest_msg_send_time == r[j].latest_msg_send_time
                && seq_lt(r[i].conversation_id@, r[j].conversation_id@)
        } by {
            assert(r[i].spec_before(&r[j]));
            assert(r[i].spec_key().0 == owner && r[j].spec_key().0 == owner);
            lemma_lt_strict_total(owner, owner, owner);
        }
    }
}


/// Unread law of an applied message: the unread count goes up by one
/// (stopping at `u32::MAX`) exactly for a message from someone else that is
/// neither read nor revoked; a read, revoked or own message leaves it as it
/// was. The highest sequence is the larger of the two, and the
/// conversation's identity and settings stay.
pub proof fn law_apply_message_unread(c: ConversationInfo, owner: Seq<char>, m: ChatMessage, r: ConversationInfo)
    requires
        advanced(c, owner, m, r),
    ensures
        m.is_read ==> r.unread_count == c.unread_count,
        m.revoked ==> r.unread_count == c.unread_count,
        m.send_id@ == owner ==> r.unread_count == c.unread_count,
        !m.is_read && !m.revoked && m.send_id@ != owner && c.unread_count < u32::MAX ==> r.unread_count
            == c.unread_count + 1,
        !m.is_read && !m.revoked && m.send_id@ != owner && c.unread_count == u32::MAX ==> r.unread_count
            == u32::MAX,
        r.unread_count >= c.unread_count,
        r.max_seq >= c.max_seq && r.max_seq >= m.seq,
        r.max_seq == c.max_seq || r.max_seq == m.seq,
        c.latest_message is None ==> r.latest_msg_send_time == m.send_time && r.latest_message is Some,
        r.owner_user_id == c.owner_user_id,
        r.conversation_id == c.conversation_id,
        r.is_pinned == c.is_pinned,
        r.draft_text == c.draft_text,
        r.show_name == c.show_name,
{
}

/// Unread sum law: the total of one conversation is its unread count, and
/// the total of two lists is the sum of their totals.
pub proof fn law_unread_sum_adds_counts(a: Seq<ConversationInfo>, b: Seq<ConversationInfo>, c: ConversationInfo)
    ensures
        unread_sum(seq![c]) == c.unread_count,
        unread_sum(Seq::<ConversationInfo>::empty()) == 0,
        unread_sum(a + b) == unread_sum(a) + unread_sum(b),
        unread_sum(a.push(c)) == unread_sum(a) + c.unread_count,
    decreases b.len(),
{
    assert(seq![c].drop_last() =~= Seq::<ConversationInfo>::empty());
    assert(unread_sum(Seq::<ConversationInfo>::empty()) == 0);
    assert(seq![c].last() == c);
    assert(unread_sum(seq![c]) == unread_sum(seq![c].drop_last()) + c.unread_count);
    assert(a.push(c).drop_last() =~= a);
    if b.len() == 0 {
        assert(a + b =~= a);
    } else {
        law_unread_sum_adds_counts(a, b.drop_last(), c);
        assert((a + b).drop_last() =~= a + b.drop_last());
        assert((a + b).last() == b.last());
    }
}

/// A sequence holds itself.
proof fn lemma_has_self(s: Seq<char>)
    ensures
        has_substring(s, s),
{
    let i: int = 0;
    assert(s.subrange(i, i + s.len()) =~= s);
    assert(0 <= i && i + s.len() <= s.len() && s.subrange(i, i + s.len()) == s);
}

/// Conversation search law: matching ignores letter case on both sides: a
/// conversation whose id, shown name or draft equals the query up to case
/// is found, and two queries, or two conversations, that agree up to case
/// match alike.
pub proof fn law_conversation_search_ignores_case(
    c: ConversationInfo,
    d: ConversationInfo,
    q: Seq<char>,
    p: Seq<char>,
)
    ensures
        spec_to_lowercase(c.conversation_id@) == spec_to_lowercase(q) ==> conversation_matches(c, q),
        spec_to_lowercase(c.show_name@) == spec_to_lowercase(q) ==> conversation_matches(c, q),
        spec_to_lowercase(c.draft_text@) == spec_to_lowercase(q) ==> conversation_matches(c, q),
        spec_to_lowercase(q) == spec_to_lowercase(p) ==> conversation_matches(c, q) == conversation_matches(c, p),
        spec_to_lowercase(c.conversation_id@) == spec_to_lowercase(d.conversation_id@) && spec_to_lowercase(c.show_name@)
            == spec_to_lowercase(d.show_name@) && spec_to_lowercase(c.draft_text@) == spec_to_lowercase(d.draft_text@)
            && c.latest_message is None && d.latest_message is None ==> conversation_matches(c, q)
            == conversation_matches(d, q),
{
    lemma_has_self(spec_to_lowercase(q));
}


/// Latest-message law of an applied message: a newer message (by sequence,
/// or by send time when a sequence is missing) becomes the latest, with its
/// id, sequence and send time; an older one leaves the latest as it was.
pub proof fn law_apply_message_latest(c: ConversationInfo, owner: Seq<char>, m: ChatMessage, r: ConversationInfo)
    requires
        advanced(c, owner, m, r),
    ensures
        c.latest_message matches Some(l) && m.seq > 0 && l.seq > 0 && m.seq < l.seq ==> r.latest_message
            == c.latest_message && r.latest_msg_send_time == c.latest_msg_send_time,
        c.latest_message matches Some(l) && (m.seq == 0 || l.seq == 0) && m.send_time < l.send_time
            ==> r.latest_message == c.latest_message,
        c.latest_message matches Some(l) && m.seq > 0 && l.seq > 0 && m.seq > l.seq ==> (r.latest_message matches Some(s)
            && s.client_msg_id@ == m.client_msg_id@ && s.seq == m.seq && s.send_time == m.send_time),
        c.latest_message matches Some(l) && (m.seq == 0 || l.seq == 0) && m.send_time >= l.send_time
            ==> (r.latest_message matches Some(s) && s.client_msg_id@ == m.client_msg_id@),
        c.latest_message is None ==> (r.latest_message matches Some(s) && s.client_msg_id@ == m.client_msg_id@
            && s.seq == m.seq),
{
}

} // verus!
