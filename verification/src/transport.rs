//! The message-gateway transport: connection settings, reconnect backoff,
//! pending requests, text heartbeats and the routing of incoming frames.
use vstd::prelude::*;

use crate::errors::{error_of, ErrorCode, ErrorView, OpenImError};
use crate::keyed::{
    has_key, lemma_map_dom, lemma_map_len, lemma_map_push, lemma_map_remove, lemma_map_update,
    lemma_map_value, lemma_map_ext, seq_to_map, unique_keys,
};
use crate::protocol::{GeneralWsResp, WsReqIdentifier, GZIP_COMPRESSION, PHASE1_SDK_VERSION, SDK_TYPE_JS};
use crate::text::{
    concat2, i64_to_decimal, lemma_lt_strict_total, lemma_order_total, order_str, owned, seq_le, seq_lt,
    signed_decimal, str_before, str_eq,
};

verus! {

/// How to reach the message gateway and who connects.
#[derive(Debug, Clone)]
pub struct TransportConfig {
    pub ws_addr: String,
    pub user_id: String,
    pub token: String,
    pub platform_id: i32,
    pub operation_id: String,
    pub sdk_type: String,
    pub sdk_version: String,
    pub is_background: bool,
    pub compression: bool,
    pub send_response: bool,
}

/// The connection query of a configuration, in the order it is sent.
pub open spec fn connect_pairs(c: TransportConfig) -> Seq<(Seq<char>, Seq<char>)> {
    seq![
        ("sendID"@, c.user_id@),
        ("token"@, c.token@),
        ("platformID"@, signed_decimal(c.platform_id as int)),
        ("operationID"@, c.operation_id@),
        ("isBackground"@, if c.is_background { "true"@ } else { "false"@ }),
        ("sdkVersion"@, c.sdk_version@),
        ("sdkType"@, c.sdk_type@),
    ] + (if c.compression {
        seq![("compression"@, "gzip"@)]
    } else {
        Seq::empty()
    }) + (if c.send_response {
        seq![("isMsgResp"@, "true"@)]
    } else {
        Seq::empty()
    })
}

/// Pairs of texts.
pub open spec fn text_pairs(v: Seq<(String, String)>) -> Seq<(Seq<char>, Seq<char>)> {
    v.map_values(|p: (String, String)| (p.0@, p.1@))
}

/// What `url::Url::parse` of a text with the pairs appended to its query
/// (`query_pairs_mut().append_pair`) renders as, or the parse error's text.
pub uninterp spec fn url_with_appended(raw: Seq<char>, pairs: Seq<(Seq<char>, Seq<char>)>) -> Result<
    Seq<char>,
    Seq<char>,
>;

/// Calls `url::Url::parse` on `raw`, appends each pair to its query with
/// `query_pairs_mut().append_pair` and renders it with `to_string`; a parse
/// error is rendered as text. Trusted: the result is `url_with_appended`.
#[verifier::external_body]
fn append_to_url(raw: &str, pairs: &Vec<(String, String)>) -> (r: Result<String, String>)
    ensures
        r matches Ok(t) ==> (url_with_appended(raw@, text_pairs(pairs@)) matches Ok(u) && u == t@),
        r matches Err(t) ==> (url_with_appended(raw@, text_pairs(pairs@)) matches Err(u) && u == t@),
{
    match url::Url::parse(raw) {
        Ok(mut url) => {
            {
                let mut query = url.query_pairs_mut();
                for (key, value) in pairs {
                    query.append_pair(key, value);
                }
            }
            Ok(url.to_string())
        },
        Err(err) => Err(err.to_string()),
    }
}

fn text_pair(key: &str, value: &str) -> (r: (String, String))
    ensures
        r.0@ == key@,
        r.1@ == value@,
{
    (owned(key), owned(value))
}

impl TransportConfig {
    /// The settings of a JS-type SDK connection with compression and send
    /// acknowledgements, in the foreground, under a given operation id.
    pub fn new(ws_addr: &str, user_id: &str, token: &str, platform_id: i32, operation_id: &str) -> (r:
        TransportConfig)
        ensures
            r.ws_addr@ == ws_addr@,
            r.user_id@ == user_id@,
            r.token@ == token@,
            r.platform_id == platform_id,
            r.operation_id@ == operation_id@,
            r.sdk_type@ == "js"@,
            r.sdk_version@ == "rust-phase1-poc"@,
            !r.is_background,
            r.compression,
            r.send_response,
    {
        TransportConfig {
            ws_addr: owned(ws_addr),
            user_id: owned(user_id),
            token: owned(token),
            platform_id,
            operation_id: owned(operation_id),
            sdk_type: owned(SDK_TYPE_JS),
            sdk_version: owned(PHASE1_SDK_VERSION),
            is_background: false,
            compression: true,
            send_response: true,
        }
    }

    /// The query pairs a connection sends.
    pub fn connect_query(&self) -> (r: Vec<(String, String)>)
        ensures
            text_pairs(r@) == connect_pairs(*self),
    {
        let mut pairs: Vec<(String, String)> = Vec::new();
        pairs.push(text_pair("sendID", self.user_id.as_str()));
        pairs.push(text_pair("token", self.token.as_str()));
        let platform = i64_to_decimal(self.platform_id as i64);
        pairs.push(text_pair("platformID", platform.as_str()));
        pairs.push(text_pair("operationID", self.operation_id.as_str()));
        pairs.push(
            text_pair(
                "isBackground",
                if self.is_background {
                    "true"
                } else {
                    "false"
                },
            ),
        );
        pairs.push(text_pair("sdkVersion", self.sdk_version.as_str()));
        pairs.push(text_pair("sdkType", self.sdk_type.as_str()));
        if self.compression {
            pairs.push(text_pair("compression", GZIP_COMPRESSION));
        }
        if self.send_response {
            pairs.push(text_pair("isMsgResp", "true"));
        }
        assert(text_pairs(pairs@) =~= connect_pairs(*self));
        pairs
    }

    /// The URL to connect to: the gateway address with the connection query
    /// appended.
    pub fn connect_url(&self) -> (r: Result<String, OpenImError>)
        ensures
            r is Ok <==> url_with_appended(self.ws_addr@, connect_pairs(*self)) is Ok,
            r matches Ok(u) ==> url_with_appended(self.ws_addr@, connect_pairs(*self)) == Ok::<
                Seq<char>,
                Seq<char>,
            >(u@),
            r matches Err(e) ==> e@ == error_of(10002, "ws_addr must be a valid ws:// or wss:// URL"@),
    {
        let pairs = self.connect_query();
        match append_to_url(self.ws_addr.as_str(), &pairs) {
            Ok(url) => Ok(url),
            Err(_) => Err(OpenImError::args("ws_addr must be a valid ws:// or wss:// URL")),
        }
    }
}

/// A message received from the gateway, before it is read as a chat
/// message.
#[derive(Debug, Clone, PartialEq, Eq)]
pub struct IncomingTransportMessage {
    pub send_id: String,
    pub recv_id: String,
    pub group_id: String,
    pub client_msg_id: String,
    pub server_msg_id: String,
    pub session_type: i32,
    pub content_type: i32,
    pub content_json: String,
    pub seq: i64,
    pub send_time: i64,
    pub create_time: i64,
    pub status: i32,
    pub is_read: bool,
    pub attached_info: String,
    pub ex: String,
}

/// What happened on the connection; delays are in milliseconds.
#[derive(Debug, Clone, PartialEq, Eq)]
pub enum TransportEvent {
    Connected,
    Disconnected { reason: String },
    Response(GeneralWsResp),
    Push(GeneralWsResp),
    HeartbeatPing,
    HeartbeatPong,
    ReconnectScheduled { attempt: u32, delay: u64 },
    RequestTimeout { msg_incr: String },
}

/// What a request waiting for its response does with an event: the
/// response it waits for ends the wait, a disconnection fails it, other
/// responses and pushes are kept for later, anything else is dropped.
#[derive(Debug, Clone, PartialEq, Eq)]
pub enum WaitStep {
    Answered(GeneralWsResp),
    Closed { reason: String },
    Keep(TransportEvent),
    Skip,
}

/// The step of a wait for the response to `msg_incr` on an event.
pub fn wait_step(event: TransportEvent, msg_incr: &str) -> (r: WaitStep)
    ensures
        match event {
            TransportEvent::Response(resp) => if resp.msg_incr@ == msg_incr@ {
                r == WaitStep::Answered(resp)
            } else {
                r == WaitStep::Keep(TransportEvent::Response(resp))
            },
            TransportEvent::Push(resp) => r == WaitStep::Keep(TransportEvent::Push(resp)),
            TransportEvent::Disconnected { reason } => r == WaitStep::Closed { reason },
            _ => r == WaitStep::Skip,
        },
{
    match event {
        TransportEvent::Response(resp) => {
            if str_eq(resp.msg_incr.as_str(), msg_incr) {
                WaitStep::Answered(resp)
            } else {
                WaitStep::Keep(TransportEvent::Response(resp))
            }
        },
        TransportEvent::Push(resp) => WaitStep::Keep(TransportEvent::Push(resp)),
        TransportEvent::Disconnected { reason } => WaitStep::Closed { reason },
        _ => WaitStep::Skip,
    }
}

/// How often to ping and how long to wait for an answer, in milliseconds.
#[derive(Debug, Clone, Copy, PartialEq, Eq)]
pub struct HeartbeatConfig {
    pub interval: u64,
    pub timeout: u64,
}

impl Default for HeartbeatConfig {
    fn default() -> (r: HeartbeatConfig)
        ensures
            r.interval == 30_000,
            r.timeout == 10_000,
    {
        HeartbeatConfig { interval: 30_000, timeout: 10_000 }
    }
}

/// How to retry a lost connection: at most `max_attempts` tries (none when
/// zero means unlimited), delays doubling from `initial_delay` up to
/// `max_delay`, in milliseconds.
#[derive(Debug, Clone, Copy, PartialEq, Eq)]
pub struct ReconnectPolicy {
    pub max_attempts: u32,
    pub initial_delay: u64,
    pub max_delay: u64,
}

/// Two to the power `n`.
pub open spec fn pow2_of(n: nat) -> nat
    decreases n,
{
    if n == 0 {
        1
    } else {
        2 * pow2_of((n - 1) as nat)
    }
}

proof fn lemma_pow2_monotone(a: nat, b: nat)
    requires
        a <= b,
    ensures
        pow2_of(a) <= pow2_of(b),
    decreases b,
{
    if a < b {
        lemma_pow2_monotone(a, (b - 1) as nat);
    }
}

/// The delay before a reconnect attempt: none for attempt zero or past the
/// limit, else the initial delay doubled once per earlier attempt (at most
/// 31 times), capped at the maximum.
pub open spec fn backoff_delay(p: ReconnectPolicy, attempt: u32) -> Option<u64> {
    if attempt == 0 || (p.max_attempts > 0 && attempt > p.max_attempts) {
        None
    } else {
        let shift = if attempt - 1 < 31 {
            attempt - 1
        } else {
            31
        };
        let grown = p.initial_delay * pow2_of(shift as nat);
        Some(
            if grown < p.max_delay {
                grown as u64
            } else {
                p.max_delay
            },
        )
    }
}

/// Reconnect delays are capped and never shrink: for attempts within the
/// limit, a later attempt waits at least as long as an earlier one, and no
/// attempt waits longer than the maximum delay.
pub proof fn law_backoff_capped_and_non_decreasing(p: ReconnectPolicy, a: u32, b: u32)
    requires
        0 < a <= b,
        backoff_delay(p, b) is Some,
    ensures
        backoff_delay(p, a) is Some,
        backoff_delay(p, a).unwrap() <= backoff_delay(p, b).unwrap(),
        backoff_delay(p, b).unwrap() <= p.max_delay,
{
    let sa: nat = if a - 1 < 31 { (a - 1) as nat } else { 31 };
    let sb: nat = if b - 1 < 31 { (b - 1) as nat } else { 31 };
    lemma_pow2_monotone(sa, sb);
    vstd::arithmetic::mul::lemma_mul_inequality(pow2_of(sa) as int, pow2_of(sb) as int, p.initial_delay as int);
    assert(p.initial_delay * pow2_of(sa) <= p.initial_delay * pow2_of(sb)) by {
        vstd::arithmetic::mul::lemma_mul_is_commutative(pow2_of(sa) as int, p.initial_delay as int);
        vstd::arithmetic::mul::lemma_mul_is_commutative(pow2_of(sb) as int, p.initial_delay as int);
    }
}

impl ReconnectPolicy {
    /// Whether a connection attempt may be made: always when attempts are
    /// unlimited (zero), else up to the limit.
    pub fn allows_attempt(&self, attempt: u32) -> (r: bool)
        ensures
            r == !(self.max_attempts > 0 && attempt > self.max_attempts),
    {
        !(self.max_attempts > 0 && attempt > self.max_attempts)
    }

    pub fn delay_for_attempt(&self, attempt: u32) -> (r: Option<u64>)
        ensures
            r == backoff_delay(*self, attempt),
    {
        if attempt == 0 || (self.max_attempts > 0 && attempt > self.max_attempts) {
            return None;
        }
        let shift: u32 = if attempt - 1 < 31 {
            attempt - 1
        } else {
            31
        };
        let mut multiplier: u128 = 1;
        let mut i: u32 = 0;
        proof {
            reveal_with_fuel(pow2_of, 32);
            assert(pow2_of(31) == 0x8000_0000);
        }
        while i < shift
            invariant
                i <= shift,
                shift <= 31,
                multiplier == pow2_of(i as nat),
                pow2_of(31) == 0x8000_0000,
            decreases shift - i,
        {
            proof {
                lemma_pow2_monotone((i + 1) as nat, 31);
            }
            multiplier = multiplier * 2;
            i = i + 1;
        }
        proof {
            lemma_pow2_monotone(shift as nat, 31);
            assert((self.initial_delay as u128) * multiplier <= 0xffff_ffff_ffff_ffff * 0x8000_0000) by (
            nonlinear_arith)
                requires
                    multiplier <= 0x8000_0000,
                    self.initial_delay <= 0xffff_ffff_ffff_ffffu64,
            ;
        }
        let grown: u128 = (self.initial_delay as u128) * multiplier;
        if grown < self.max_delay as u128 {
            Some(grown as u64)
        } else {
            Some(self.max_delay)
        }
    }
}

impl Default for ReconnectPolicy {
    fn default() -> (r: ReconnectPolicy)
        ensures
            r.max_attempts == 5,
            r.initial_delay == 300,
            r.max_delay == 5_000,
    {
        ReconnectPolicy { max_attempts: 5, initial_delay: 300, max_delay: 5_000 }
    }
}

/// A request waiting for its response: its message increment and when it
/// was sent (milliseconds).
#[derive(Debug, Clone, PartialEq, Eq)]
pub struct PendingEntry {
    pub msg_incr: String,
    pub sent_at: u64,
}

/// The key of a pending entry: its message increment.
pub open spec fn incr_key() -> spec_fn(PendingEntry) -> Seq<char> {
    |e: PendingEntry| e.msg_incr@
}

/// Whether a request sent at `sent_at` has waited `timeout` by `now`.
pub open spec fn timed_out(now: u64, sent_at: u64, timeout: u64) -> bool {
    (if now >= sent_at {
        now - sent_at
    } else {
        0
    }) >= timeout
}

/// The requests waiting for a response, by message increment.
pub struct PendingRequests {
    entries: Vec<PendingEntry>,
}

impl Default for PendingRequests {
    fn default() -> (r: PendingRequests)
        ensures
            r.view() == Map::<Seq<char>, u64>::empty(),
    {
        PendingRequests::new()
    }
}

impl PendingRequests {
    #[verifier::type_invariant]
    closed spec fn wf(&self) -> bool {
        unique_keys(self.entries@, incr_key())
    }

    /// Each waiting increment with its send time.
    pub closed spec fn view(&self) -> Map<Seq<char>, u64> {
        let m = seq_to_map(self.entries@, incr_key());
        Map::new(|k: Seq<char>| m.contains_key(k), |k: Seq<char>| m[k].sent_at)
    }

    pub fn new() -> (r: PendingRequests)
        ensures
            r.view() == Map::<Seq<char>, u64>::empty(),
    {
        let r = PendingRequests { entries: Vec::new() };
        assert(r.view() =~= Map::<Seq<char>, u64>::empty());
        r
    }

    fn find(&self, msg_incr: &str) -> (r: Option<usize>)
        ensures
            r matches Some(i) ==> i < self.entries@.len() && self.entries@[i as int].msg_incr@ == msg_incr@,
            r is None ==> !has_key(self.entries@, incr_key(), msg_incr@),
    {
        let mut i: usize = 0;
        while i < self.entries.len()
            invariant
                i <= self.entries@.len(),
                forall|j: int| 0 <= j < i ==> #[trigger] self.entries@[j].msg_incr@ != msg_incr@,
            decreases self.entries.len() - i,
        {
            if str_eq(self.entries[i].msg_incr.as_str(), msg_incr) {
                return Some(i);
            }
            i = i + 1;
        }
        proof {
            if has_key(self.entries@, incr_key(), msg_incr@) {
                let j = choose|j: int| 0 <= j < self.entries@.len() && incr_key()(self.entries@[j]) == msg_incr@;
                assert(self.entries@[j].msg_incr@ != msg_incr@);
            }
        }
        None
    }

    /// Records a request sent at `sent_at`; an empty increment is ignored.
    pub fn register_at(&mut self, msg_incr: &str, sent_at: u64)
        ensures
            final(self).view() == (if msg_incr@.len() == 0 {
                old(self).view()
            } else {
                old(self).view().insert(msg_incr@, sent_at)
            }),
    {
        proof {
            use_type_invariant(&*self);
        }
        if msg_incr.is_empty() {
            return;
        }
        let ghost before = self.view();
        let entry = PendingEntry { msg_incr: owned(msg_incr), sent_at };
        let found = self.find(msg_incr);
        let mut entries: Vec<PendingEntry> = Vec::new();
        std::mem::swap(&mut entries, &mut self.entries);
        let ghost old_entries = entries@;
        match found {
            Some(i) => {
                proof {
                    lemma_map_update(old_entries, incr_key(), i as int, entry);
                }
                entries.set(i, entry);
            },
            None => {
                proof {
                    lemma_map_push(old_entries, incr_key(), entry);
                }
                entries.push(entry);
            },
        }
        self.entries = entries;
        assert(self.view() =~= before.insert(msg_incr@, sent_at));
    }

    pub fn contains(&self, msg_incr: &str) -> (r: bool)
        ensures
            r == self.view().contains_key(msg_incr@),
    {
        proof {
            lemma_map_dom(self.entries@, incr_key(), msg_incr@);
        }
        self.find(msg_incr).is_some()
    }

    /// Drops a request; says whether it was there.
    pub fn resolve(&mut self, msg_incr: &str) -> (r: bool)
        ensures
            r == old(self).view().contains_key(msg_incr@),
            final(self).view() == old(self).view().remove(msg_incr@),
    {
        proof {
            use_type_invariant(&*self);
            lemma_map_dom(self.entries@, incr_key(), msg_incr@);
        }
        let ghost before = self.view();
        match self.find(msg_incr) {
            Some(i) => {
                let mut entries: Vec<PendingEntry> = Vec::new();
                std::mem::swap(&mut entries, &mut self.entries);
                proof {
                    lemma_map_remove(entries@, incr_key(), i as int);
                }
                entries.remove(i);
                self.entries = entries;
                assert(self.view() =~= before.remove(msg_incr@));
                true
            },
            None => {
                assert(self.view() =~= before.remove(msg_incr@));
                false
            },
        }
    }

    /// Drops every request that has waited `timeout` by `now` and returns
    /// their increments, each once.
    pub fn expire_at(&mut self, now: u64, timeout: u64) -> (r: Vec<String>)
        ensures
            final(self).view() == old(self).view().restrict(
                old(self).view().dom().filter(|k: Seq<char>| !timed_out(now, old(self).view()[k], timeout)),
            ),
            forall|a: int, b: int| 0 <= a < b < r@.len() ==> r@[a]@ != r@[b]@,
            forall|k: Seq<char>|
                (exists|a: int| 0 <= a < r@.len() && #[trigger] r@[a]@ == k) <==> (old(self).view().contains_key(k)
                    && timed_out(now, old(self).view()[k], timeout)),
    {
        proof {
            use_type_invariant(&*self);
        }
        let ghost before = self.view();
        let ghost s = self.entries@;
        let mut kept: Vec<PendingEntry> = Vec::new();
        let mut expired: Vec<String> = Vec::new();
        let ghost mut origin: Seq<int> = Seq::empty();
        let mut i: usize = 0;
        while i < self.entries.len()
            invariant
                s == self.entries@,
                unique_keys(s, incr_key()),
                i <= s.len(),
                unique_keys(kept@, incr_key()),
                forall|x: PendingEntry| #[trigger] kept@.contains(x) ==> exists|j: int|
                    0 <= j < i && s[j] == x && !timed_out(now, s[j].sent_at, timeout),
                forall|j: int|
                    0 <= j < i && !timed_out(now, s[j].sent_at, timeout) ==> kept@.contains(#[trigger] s[j]),
                origin.len() == expired@.len(),
                forall|a: int| 0 <= a < expired@.len() ==> 0 <= #[trigger] origin[a] < i && expired@[a]@
                    == s[origin[a]].msg_incr@ && timed_out(now, s[origin[a]].sent_at, timeout),
                forall|a: int, b: int| 0 <= a < b < expired@.len() ==> origin[a] < origin[b],
                forall|j: int|
                    0 <= j < i && timed_out(now, s[j].sent_at, timeout) ==> exists|a: int|
                        0 <= a < expired@.len() && #[trigger] origin[a] == j,
            decreases s.len() - i,
        {
            let e = &self.entries[i];
            let sent_at = e.sent_at;
            let waited = if now >= sent_at {
                now - sent_at
            } else {
                0
            };
            if waited >= timeout {
                let ghost old_origin = origin;
                expired.push(e.msg_incr.clone());
                proof {
                    origin = origin.push(i as int);
                    assert forall|j: int|
                        0 <= j < i + 1 && timed_out(now, s[j].sent_at, timeout) implies exists|a: int|
                            0 <= a < expired@.len() && #[trigger] origin[a] == j by {
                        if j == i {
                            assert(origin[old_origin.len() as int] == j);
                        } else {
                            let a = choose|a: int| 0 <= a < old_origin.len() && #[trigger] old_origin[a] == j;
                            assert(origin[a] == j);
                        }
                    }
                }
            } else {
                let ghost old_kept = kept@;
                proof {
                    assert forall|q: int| 0 <= q < kept@.len() implies incr_key()(kept@[q]) != incr_key()(*e) by {
                        assert(kept@.contains(kept@[q]));
                        let j = choose|j: int| 0 <= j < i && s[j] == kept@[q] && !timed_out(now, s[j].sent_at, timeout);
                        assert(j != i);
                    }
                    assert(!has_key(kept@, incr_key(), incr_key()(*e)));
                    lemma_map_push(kept@, incr_key(), *e);
                }
                kept.push(PendingEntry { msg_incr: e.msg_incr.clone(), sent_at: e.sent_at });
                proof {
                    assert forall|x: PendingEntry| #[trigger] kept@.contains(x) implies exists|j: int|
                        0 <= j < i + 1 && s[j] == x && !timed_out(now, s[j].sent_at, timeout) by {
                        let q = choose|q: int| 0 <= q < kept@.len() && kept@[q] == x;
                        if q < old_kept.len() {
                            assert(old_kept.contains(x));
                        }
                    }
                    assert forall|j: int|
                        0 <= j < i + 1 && !timed_out(now, s[j].sent_at, timeout) implies kept@.contains(#[trigger] s[j]) by {
                        if j < i {
                            assert(old_kept.contains(s[j]));
                            let q = choose|q: int| 0 <= q < old_kept.len() && old_kept[q] == s[j];
                            assert(kept@[q] == s[j]);
                        } else {
                            assert(kept@[old_kept.len() as int] == s[j]);
                        }
                    }
                }
            }
            i = i + 1;
        }
        let ghost m = seq_to_map(s, incr_key());
        let ghost target = m.restrict(m.dom().filter(|k: Seq<char>| !timed_out(now, m[k].sent_at, timeout)));
        proof {
            assert forall|k: Seq<char>| has_key(kept@, incr_key(), k) <==> target.contains_key(k) by {
                lemma_map_dom(s, incr_key(), k);
                if has_key(kept@, incr_key(), k) {
                    let q = choose|q: int| 0 <= q < kept@.len() && incr_key()(kept@[q]) == k;
                    assert(kept@.contains(kept@[q]));
                    let j = choose|j: int| 0 <= j < s.len() && s[j] == kept@[q] && !timed_out(now, s[j].sent_at, timeout);
                    lemma_map_value(s, incr_key(), j);
                }
                if target.contains_key(k) {
                    let j = choose|j: int| 0 <= j < s.len() && incr_key()(s[j]) == k;
                    lemma_map_value(s, incr_key(), j);
                    assert(kept@.contains(s[j]));
                    let q = choose|q: int| 0 <= q < kept@.len() && kept@[q] == s[j];
                    assert(incr_key()(kept@[q]) == k);
                }
            }
            assert forall|q: int| 0 <= q < kept@.len() implies target[incr_key()(kept@[q])] == kept@[q] by {
                assert(kept@.contains(kept@[q]));
                let j = choose|j: int| 0 <= j < s.len() && s[j] == kept@[q] && !timed_out(now, s[j].sent_at, timeout);
                lemma_map_value(s, incr_key(), j);
            }
            lemma_map_ext(s, kept@, incr_key(), target);
            assert forall|a: int, b: int| 0 <= a < b < expired@.len() implies expired@[a]@ != expired@[b]@ by {
                assert(origin[a] != origin[b]);
            }
            assert forall|k: Seq<char>|
                (exists|a: int| 0 <= a < expired@.len() && #[trigger] expired@[a]@ == k) <==> (before.contains_key(k)
                    && timed_out(now, before[k], timeout)) by {
                lemma_map_dom(s, incr_key(), k);
                if exists|a: int| 0 <= a < expired@.len() && #[trigger] expired@[a]@ == k {
                    let a = choose|a: int| 0 <= a < expired@.len() && #[trigger] expired@[a]@ == k;
                    lemma_map_value(s, incr_key(), origin[a]);
                }
                if before.contains_key(k) && timed_out(now, before[k], timeout) {
                    let j = choose|j: int| 0 <= j < s.len() && incr_key()(s[j]) == k;
                    lemma_map_value(s, incr_key(), j);
                    let a = choose|a: int| 0 <= a < expired@.len() && #[trigger] origin[a] == j;
                    assert(expired@[a]@ == k);
                }
            }
        }
        self.entries = kept;
        proof {
            let after = self.view();
            let expected = before.restrict(before.dom().filter(|k: Seq<char>| !timed_out(now, before[k], timeout)));
            assert forall|k: Seq<char>| after.contains_key(k) <==> expected.contains_key(k) by {}
            assert forall|k: Seq<char>| after.contains_key(k) implies after[k] == expected[k] by {}
            assert(after =~= expected);
        }
        expired
    }

    pub fn clear(&mut self)
        ensures
            final(self).view() == Map::<Seq<char>, u64>::empty(),
    {
        self.entries = Vec::new();
        assert(self.view() =~= Map::<Seq<char>, u64>::empty());
    }

    pub fn len(&self) -> (r: usize)
        ensures
            r == self.view().dom().len(),
    {
        proof {
            use_type_invariant(self);
            lemma_map_len(self.entries@, incr_key());
            assert(self.view().dom() =~= seq_to_map(self.entries@, incr_key()).dom());
        }
        self.entries.len()
    }

    pub fn is_empty(&self) -> (r: bool)
        ensures
            r == (self.view().dom().len() == 0),
    {
        self.len() == 0
    }
}

/// A text heartbeat frame.
#[derive(Debug, Clone, PartialEq, Eq)]
pub enum TextHeartbeatFrame {
    Ping { pong: String },
    Pong,
}

/// The text of a ping.
pub fn heartbeat_ping_text() -> (r: &'static str)
    ensures
        r@ == "{\"type\":\"ping\"}"@,
{
    "{\"type\":\"ping\"}"
}

/// What `serde_json::from_str` into a `serde_json::Value` makes of a text:
/// none when it is not JSON, else the string its `type` field holds, if
/// any (`Value::get`, `Value::as_str`).
pub uninterp spec fn json_type_field(text: Seq<char>) -> Option<Option<Seq<char>>>;

/// What `serde_json::to_string` renders for the JSON value of a text with
/// its `type` field set to a string (when the value is an object), or the
/// text of its error.
pub uninterp spec fn json_with_type(text: Seq<char>, kind: Seq<char>) -> Result<Seq<char>, Seq<char>>;

/// Parses `text` with `serde_json::from_str` into a `serde_json::Value`
/// and reads its `type` field as a string. Trusted: the result is
/// `json_type_field` of the text.
#[verifier::external_body]
fn read_json_type(text: &str) -> (r: Option<Option<String>>)
    ensures
        r matches None ==> json_type_field(text@) is None,
        r matches Some(None) ==> json_type_field(text@) == Some(None::<Seq<char>>),
        r matches Some(Some(t)) ==> json_type_field(text@) == Some(Some(t@)),
{
    match serde_json::from_str::<serde_json::Value>(text) {
        Ok(value) => Some(value.get("type").and_then(serde_json::Value::as_str).map(str::to_string)),
        Err(_) => None,
    }
}

/// Parses `text` with `serde_json::from_str` into a `serde_json::Value`,
/// sets its `type` field to `kind` when it is an object, and renders it
/// with `serde_json::to_string`. Trusted: the result is `json_with_type`.
#[verifier::external_body]
fn write_json_type(text: &str, kind: &str) -> (r: Result<String, String>)
    requires
        json_type_field(text@) is Some,
    ensures
        r matches Ok(t) ==> (json_with_type(text@, kind@) matches Ok(u) && u == t@),
        r matches Err(t) ==> (json_with_type(text@, kind@) matches Err(u) && u == t@),
{
    match serde_json::from_str::<serde_json::Value>(text) {
        Ok(mut value) => {
            if let Some(object) = value.as_object_mut() {
                object.insert("type".to_string(), serde_json::Value::String(kind.to_string()));
            }
            serde_json::to_string(&value).map_err(|err| err.to_string())
        },
        Err(err) => Err(err.to_string()),
    }
}

/// What a text frame is: a ping (answered by the same JSON with its type
/// set to pong), a pong, or nothing of the heartbeat.
pub open spec fn heartbeat_outcome(text: Seq<char>, r: Result<Option<TextHeartbeatFrame>, OpenImError>) -> bool {
    match json_type_field(text) {
        Some(Some(kind)) => if kind == "ping"@ {
            match json_with_type(text, "pong"@) {
                Ok(pong) => r matches Ok(Some(TextHeartbeatFrame::Ping { pong: p })) && p@ == pong,
                Err(e) => r matches Err(x) && x@ == error_of(10006, e),
            }
        } else if kind == "pong"@ {
            r matches Ok(Some(TextHeartbeatFrame::Pong))
        } else {
            r matches Ok(None)
        },
        _ => r matches Ok(None),
    }
}

/// Reads a text frame as a heartbeat.
pub fn text_heartbeat_frame(text: &str) -> (r: Result<Option<TextHeartbeatFrame>, OpenImError>)
    ensures
        heartbeat_outcome(text@, r),
{
    match read_json_type(text) {
        Some(Some(kind)) => {
            if str_eq(kind.as_str(), "ping") {
                match write_json_type(text, "pong") {
                    Ok(pong) => Ok(Some(TextHeartbeatFrame::Ping { pong })),
                    Err(e) => Err(OpenImError::with_message(ErrorCode::sdk_internal(), e)),
                }
            } else if str_eq(kind.as_str(), "pong") {
                Ok(Some(TextHeartbeatFrame::Pong))
            } else {
                Ok(None)
            }
        },
        _ => Ok(None),
    }
}

/// The answer to a text ping, if the text is one.
pub fn text_pong_response(text: &str) -> (r: Result<Option<String>, OpenImError>)
    ensures
        match json_type_field(text@) {
            Some(Some(kind)) if kind == "ping"@ => match json_with_type(text@, "pong"@) {
                Ok(pong) => r matches Ok(Some(p)) && p@ == pong,
                Err(e) => r matches Err(x) && x@ == error_of(10006, e),
            },
            _ => r matches Ok(None),
        },
{
    match text_heartbeat_frame(text)? {
        Some(TextHeartbeatFrame::Ping { pong }) => Ok(Some(pong)),
        _ => Ok(None),
    }
}

/// A frame answers a pending request: it is no push and its message
/// increment is pending.
pub open spec fn answers_pending(resp: GeneralWsResp, pending: Map<Seq<char>, u64>) -> bool {
    resp.req_identifier != 2001 && resp.msg_incr@.len() > 0 && pending.contains_key(resp.msg_incr@)
}

/// The pending requests after routing a frame: the answered one is gone.
pub open spec fn routed_pending(resp: GeneralWsResp, pending: Map<Seq<char>, u64>) -> Map<Seq<char>, u64> {
    if answers_pending(resp, pending) {
        pending.remove(resp.msg_incr@)
    } else {
        pending
    }
}

/// A request registered under a message increment is answered by the next
/// non-push frame carrying that increment.
pub proof fn law_registered_request_is_answered(resp: GeneralWsResp, pending: Map<Seq<char>, u64>, sent_at: u64)
    requires
        resp.req_identifier != 2001,
        resp.msg_incr@.len() > 0,
    ensures
        answers_pending(resp, pending.insert(resp.msg_incr@, sent_at)),
{
}

/// A response is routed to its request once: after a frame has been
/// routed, the same frame no longer answers a pending request.
pub proof fn law_response_routes_once(resp: GeneralWsResp, pending: Map<Seq<char>, u64>)
    ensures
        !answers_pending(resp, routed_pending(resp, pending)),
{
}

/// Routes an incoming frame: pushes, and frames answering no pending
/// request, are pushes; a frame answering a pending request resolves it.
pub fn route_envelope(resp: GeneralWsResp, pending: &mut PendingRequests) -> (r: TransportEvent)
    ensures
        answers_pending(resp, old(pending).view()) ==> r == TransportEvent::Response(resp),
        !answers_pending(resp, old(pending).view()) ==> r == TransportEvent::Push(resp),
        final(pending).view() == routed_pending(resp, old(pending).view()),
{
    if resp.req_identifier == WsReqIdentifier::PushMsg.as_i32() {
        return TransportEvent::Push(resp);
    }
    if !resp.msg_incr.as_str().is_empty() && pending.resolve(resp.msg_incr.as_str()) {
        TransportEvent::Response(resp)
    } else {
        proof {
            if resp.msg_incr@.len() > 0 {
                assert(old(pending).view().remove(resp.msg_incr@) =~= old(pending).view());
            }
        }
        TransportEvent::Push(resp)
    }
}

/// The error of a response frame with a non-zero code.
pub open spec fn response_error(resp: GeneralWsResp) -> ErrorView {
    error_of(
        resp.err_code,
        "websocket response error: identifier="@ + signed_decimal(resp.req_identifier as int)
            + " code="@ + signed_decimal(resp.err_code as int) + " msg="@ + resp.err_msg@,
    )
}

/// The error of a refused connection: the gateway's code, and its message
/// and detail in the text.
pub open spec fn connect_ack_error(err_code: i32, err_msg: Seq<char>, err_detail: Seq<char>) -> ErrorView {
    error_of(
        err_code,
        "websocket auth failed: code="@ + signed_decimal(err_code as int) + " msg="@ + err_msg + " detail="@
            + err_detail,
    )
}

/// Checks the gateway's answer to a connection: a zero code accepts it.
pub fn ensure_connect_ack(err_code: i32, err_msg: &str, err_detail: &str) -> (r: Result<(), OpenImError>)
    ensures
        r is Ok <==> err_code == 0,
        r matches Err(e) ==> e@ == connect_ack_error(err_code, err_msg@, err_detail@),
{
    if err_code == 0 {
        return Ok(());
    }
    let mut message = owned("websocket auth failed: code=");
    let code = i64_to_decimal(err_code as i64);
    message.append(code.as_str());
    message.append(" msg=");
    message.append(err_msg);
    message.append(" detail=");
    message.append(err_detail);
    Err(OpenImError::with_message(ErrorCode::from_i32(err_code), message))
}

/// Fails for a response frame with a non-zero code.
pub fn ensure_success_response(resp: &GeneralWsResp) -> (r: Result<(), OpenImError>)
    ensures
        r is Ok <==> resp.err_code == 0,
        r matches Err(e) ==> e@ == response_error(*resp),
{
    if resp.err_code == 0 {
        return Ok(());
    }
    let mut message = owned("websocket response error: identifier=");
    let id = i64_to_decimal(resp.req_identifier as i64);
    message.append(id.as_str());
    message.append(" code=");
    let code = i64_to_decimal(resp.err_code as i64);
    message.append(code.as_str());
    message.append(" msg=");
    message.append(resp.err_msg.as_str());
    Err(OpenImError::with_message(ErrorCode::new(resp.err_code), message))
}


/// The order of pushed messages: by sequence number, then send time, then
/// client message id.
pub open spec fn push_le(a: IncomingTransportMessage, b: IncomingTransportMessage) -> bool {
    ||| a.seq < b.seq
    ||| a.seq == b.seq && a.send_time < b.send_time
    ||| a.seq == b.seq && a.send_time == b.send_time && seq_le(a.client_msg_id@, b.client_msg_id@)
}

/// Whether pushed messages come in `push_le` order.
pub open spec fn push_sorted(s: Seq<IncomingTransportMessage>) -> bool {
    forall|i: int, j: int| 0 <= i < j < s.len() ==> push_le(#[trigger] s[i], #[trigger] s[j])
}

/// The messages of the groups, one group after the other.
pub open spec fn flat_groups(g: Seq<Seq<IncomingTransportMessage>>) -> Seq<IncomingTransportMessage>
    decreases g.len(),
{
    if g.len() == 0 {
        Seq::empty()
    } else {
        flat_groups(g.drop_last()) + g.last()
    }
}

/// The contents of each group.
pub open spec fn group_views(g: Seq<Vec<IncomingTransportMessage>>) -> Seq<Seq<IncomingTransportMessage>> {
    g.map_values(|v: Vec<IncomingTransportMessage>| v@)
}

/// `push_le` is a total preorder.
proof fn lemma_push_le(a: IncomingTransportMessage, b: IncomingTransportMessage, c: IncomingTransportMessage)
    ensures
        push_le(a, b) || push_le(b, a),
        push_le(a, b) && push_le(b, c) ==> push_le(a, c),
{
    lemma_order_total(a.client_msg_id@, b.client_msg_id@, c.client_msg_id@);
}

fn push_le_exec(a: &IncomingTransportMessage, b: &IncomingTransportMessage) -> (r: bool)
    ensures
        r == push_le(*a, *b),
{
    if a.seq != b.seq {
        a.seq < b.seq
    } else if a.send_time != b.send_time {
        a.send_time < b.send_time
    } else {
        order_str(a.client_msg_id.as_str(), b.client_msg_id.as_str()) <= 0
    }
}

/// Inserts a message after every message that does not come after it.
fn insert_push_message(out: &mut Vec<IncomingTransportMessage>, m: IncomingTransportMessage)
    requires
        push_sorted(old(out)@),
    ensures
        push_sorted(final(out)@),
        final(out)@.to_multiset() == old(out)@.to_multiset().insert(m),
{
    broadcast use vstd::seq_lib::group_to_multiset_ensures;

    let mut k: usize = 0;
    while k < out.len() && push_le_exec(&out[k], &m)
        invariant
            k <= out.len(),
            push_sorted(out@),
            forall|i: int| 0 <= i < k ==> push_le(#[trigger] out@[i], m),
        decreases out.len() - k,
    {
        k = k + 1;
    }
    let ghost before = out@;
    proof {
        if k < before.len() {
            lemma_push_le(before[k as int], m, m);
        }
    }
    out.insert(k, m);
    proof {
        assert forall|i: int, j: int| 0 <= i < j < out@.len() implies push_le(#[trigger] out@[i], #[trigger] out@[j]) by {
            if j < k {
                assert(out@[i] == before[i] && out@[j] == before[j]);
            } else if j == k {
                assert(out@[i] == before[i]);
            } else if i == k {
                assert(out@[j] == before[j - 1]);
                if k < j - 1 {
                    assert(push_le(before[k as int], before[j - 1]));
                }
                lemma_push_le(m, before[k as int], before[j - 1]);
            } else if i < k {
                assert(out@[i] == before[i] && out@[j] == before[j - 1]);
            } else {
                assert(out@[i] == before[i - 1] && out@[j] == before[j - 1]);
            }
        }
        assert(out@.remove(k as int) =~= before);
        assert(out@[k as int] == m);
        assert(out@.to_multiset().count(m) > 0);
        assert(out@.to_multiset() =~= before.to_multiset().insert(m));
    }
}

/// The messages of a push frame's groups in `push_le` order: the same
/// messages, each as often as in the groups.
pub fn order_push_messages(groups: Vec<Vec<IncomingTransportMessage>>) -> (r: Vec<IncomingTransportMessage>)
    ensures
        r@.to_multiset() == flat_groups(group_views(groups@)).to_multiset(),
        push_sorted(r@),
{
    broadcast use vstd::seq_lib::group_to_multiset_ensures;

    let ghost orig = group_views(groups@);
    let mut groups = groups;
    let mut out: Vec<IncomingTransportMessage> = Vec::new();
    let ghost mut done: int = 0;
    assert(orig.take(0) =~= Seq::<Seq<IncomingTransportMessage>>::empty());
    assert(out@.to_multiset() =~= flat_groups(orig.take(0)).to_multiset());
    while groups.len() > 0
        invariant
            0 <= done <= orig.len(),
            groups@.len() + done == orig.len(),
            forall|i: int| 0 <= i < groups@.len() ==> (#[trigger] groups@[i])@ == orig[done + i],
            out@.to_multiset() == flat_groups(orig.take(done)).to_multiset(),
            push_sorted(out@),
        decreases groups.len(),
    {
        let mut group = groups.remove(0);
        let ghost gseq = group@;
        assert(gseq == orig[done]);
        let ghost mut taken: int = 0;
        assert(flat_groups(orig.take(done)) + gseq.take(0) =~= flat_groups(orig.take(done)));
        while group.len() > 0
            invariant
                0 <= taken <= gseq.len(),
                group@ == gseq.skip(taken),
                out@.to_multiset() == (flat_groups(orig.take(done)) + gseq.take(taken)).to_multiset(),
                push_sorted(out@),
            decreases group.len(),
        {
            let m = group.remove(0);
            assert(m == gseq[taken]);
            insert_push_message(&mut out, m);
            proof {
                assert(flat_groups(orig.take(done)) + gseq.take(taken + 1) =~= (flat_groups(orig.take(done))
                    + gseq.take(taken)).push(m));
                vstd::seq_lib::to_multiset_build(flat_groups(orig.take(done)) + gseq.take(taken), m);
                assert(group@ =~= gseq.skip(taken + 1));
                taken = taken + 1;
            }
        }
        proof {
            assert(gseq.take(taken) =~= gseq);
            assert(orig.take(done + 1).drop_last() =~= orig.take(done));
            assert(orig.take(done + 1).last() == gseq);
            done = done + 1;
            assert forall|i: int| 0 <= i < groups@.len() implies (#[trigger] groups@[i])@ == orig[done + i] by {
            }
        }
    }
    assert(orig.take(done) =~= orig);
    out
}

} // verus!
