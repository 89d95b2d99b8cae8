//! Friends and the blacklist of each user.
use vstd::prelude::*;

use crate::domain::{
    apply_actions, apply_plan, distinct_sync_keys, fully_synced, lemma_listing_lists, lemma_scope_sync_mirrors,
    list_of, listing, lists_scope, mirrors_scope, summary_of, DomainSyncSummary,
};
use crate::errors::lemma_first_error_none;
use crate::errors::{
    empty_message, ensure_not_empty, ensure_pair, error_of, first_error, lemma_first_error_skip,
    pair_error, ErrorView, OpenImError,
};
use crate::keyed::{Duplicate, Key, Keyed, KeyedStore, ListOrder};
use crate::sync::{diff_by, spec_diff, DiffOptions, SyncItem};
use crate::text::{lemma_pair_before, pair_before, pair_before_exec, str_eq};

verus! {

#[derive(Debug, Clone, PartialEq, Eq)]
pub struct FriendInfo {
    pub owner_user_id: String,
    pub friend_user_id: String,
    pub nickname: String,
    pub remark: String,
    pub face_url: String,
    pub updated_at: i64,
}

#[derive(Debug, Clone, PartialEq, Eq)]
pub struct BlacklistInfo {
    pub owner_user_id: String,
    pub blocked_user_id: String,
    pub nickname: String,
    pub face_url: String,
    pub updated_at: i64,
}

impl Duplicate for FriendInfo {
    fn duplicate(&self) -> (r: FriendInfo)
        ensures
            r == *self,
    {
        FriendInfo {
            owner_user_id: self.owner_user_id.clone(),
            friend_user_id: self.friend_user_id.clone(),
            nickname: self.nickname.clone(),
            remark: self.remark.clone(),
            face_url: self.face_url.clone(),
            updated_at: self.updated_at,
        }
    }
}

impl Keyed for FriendInfo {
    open spec fn spec_key(&self) -> Key {
        (self.owner_user_id@, self.friend_user_id@)
    }

    fn key_is(&self, scope: &str, id: &str) -> (r: bool) {
        str_eq(self.owner_user_id.as_str(), scope) && str_eq(self.friend_user_id.as_str(), id)
    }

    fn same_key(&self, other: &Self) -> (r: bool) {
        self.owner_user_id.eq(&other.owner_user_id) && self.friend_user_id.eq(&other.friend_user_id)
    }

    fn in_scope(&self, scope: &str) -> (r: bool) {
        str_eq(self.owner_user_id.as_str(), scope)
    }
}

impl ListOrder for FriendInfo {
    /// By friend id, then owner.
    open spec fn spec_before(&self, other: &Self) -> bool {
        pair_before(
            (self.friend_user_id@, self.owner_user_id@),
            (other.friend_user_id@, other.owner_user_id@),
        )
    }

    fn before(&self, other: &Self) -> (r: bool) {
        pair_before_exec(
            self.friend_user_id.as_str(),
            self.owner_user_id.as_str(),
            other.friend_user_id.as_str(),
            other.owner_user_id.as_str(),
        )
    }

    proof fn lemma_strict_total(a: Self, b: Self, c: Self) {
        lemma_pair_before(
            (a.friend_user_id@, a.owner_user_id@),
            (b.friend_user_id@, b.owner_user_id@),
            (c.friend_user_id@, c.owner_user_id@),
        );
    }
}

impl SyncItem for FriendInfo {
    open spec fn sync_key(&self) -> Seq<char> {
        self.friend_user_id@
    }

    open spec fn same_value(&self, other: &Self) -> bool {
        &&& self.owner_user_id@ == other.owner_user_id@
        &&& self.friend_user_id@ == other.friend_user_id@
        &&& self.nickname@ == other.nickname@
        &&& self.remark@ == other.remark@
        &&& self.face_url@ == other.face_url@
        &&& self.updated_at == other.updated_at
    }

    fn sync_id(&self) -> (r: String) {
        self.friend_user_id.clone()
    }

    fn same_sync_key(&self, other: &Self) -> (r: bool) {
        self.friend_user_id.eq(&other.friend_user_id)
    }

    fn same(&self, other: &Self) -> (r: bool) {
        self.owner_user_id.eq(&other.owner_user_id) && self.friend_user_id.eq(&other.friend_user_id)
            && self.nickname.eq(&other.nickname) && self.remark.eq(&other.remark)
            && self.face_url.eq(&other.face_url) && self.updated_at == other.updated_at
    }
}

impl Duplicate for BlacklistInfo {
    fn duplicate(&self) -> (r: BlacklistInfo)
        ensures
            r == *self,
    {
        BlacklistInfo {
            owner_user_id: self.owner_user_id.clone(),
            blocked_user_id: self.blocked_user_id.clone(),
            nickname: self.nickname.clone(),
            face_url: self.face_url.clone(),
            updated_at: self.updated_at,
        }
    }
}

impl Keyed for BlacklistInfo {
    open spec fn spec_key(&self) -> Key {
        (self.owner_user_id@, self.blocked_user_id@)
    }

    fn key_is(&self, scope: &str, id: &str) -> (r: bool) {
        str_eq(self.owner_user_id.as_str(), scope) && str_eq(self.blocked_user_id.as_str(), id)
    }

    fn same_key(&self, other: &Self) -> (r: bool) {
        self.owner_user_id.eq(&other.owner_user_id) && self.blocked_user_id.eq(
            &other.blocked_user_id,
        )
    }

    fn in_scope(&self, scope: &str) -> (r: bool) {
        str_eq(self.owner_user_id.as_str(), scope)
    }
}

impl ListOrder for BlacklistInfo {
    /// By blocked user id, then owner.
    open spec fn spec_before(&self, other: &Self) -> bool {
        pair_before(
            (self.blocked_user_id@, self.owner_user_id@),
            (other.blocked_user_id@, other.owner_user_id@),
        )
    }

    fn before(&self, other: &Self) -> (r: bool) {
        pair_before_exec(
            self.blocked_user_id.as_str(),
            self.owner_user_id.as_str(),
            other.blocked_user_id.as_str(),
            other.owner_user_id.as_str(),
        )
    }

    proof fn lemma_strict_total(a: Self, b: Self, c: Self) {
        lemma_pair_before(
            (a.blocked_user_id@, a.owner_user_id@),
            (b.blocked_user_id@, b.owner_user_id@),
            (c.blocked_user_id@, c.owner_user_id@),
        );
    }
}

impl SyncItem for BlacklistInfo {
    open spec fn sync_key(&self) -> Seq<char> {
        self.blocked_user_id@
    }

    open spec fn same_value(&self, other: &Self) -> bool {
        &&& self.owner_user_id@ == other.owner_user_id@
        &&& self.blocked_user_id@ == other.blocked_user_id@
        &&& self.nickname@ == other.nickname@
        &&& self.face_url@ == other.face_url@
        &&& self.updated_at == other.updated_at
    }

    fn sync_id(&self) -> (r: String) {
        self.blocked_user_id.clone()
    }

    fn same_sync_key(&self, other: &Self) -> (r: bool) {
        self.blocked_user_id.eq(&other.blocked_user_id)
    }

    fn same(&self, other: &Self) -> (r: bool) {
        self.owner_user_id.eq(&other.owner_user_id) && self.blocked_user_id.eq(
            &other.blocked_user_id,
        ) && self.nickname.eq(&other.nickname) && self.face_url.eq(&other.face_url)
            && self.updated_at == other.updated_at
    }
}

/// The error for a server item of another owner.
pub open spec fn owner_mismatch() -> ErrorView {
    error_of(10002, "server item owner_user_id mismatch"@)
}

/// The error a server relation item raises during a sync of `owner`.
pub open spec fn relation_item_error(owner: Seq<char>, item_owner: Seq<char>, target: Seq<char>) -> Option<
    ErrorView,
> {
    if owner != item_owner {
        Some(owner_mismatch())
    } else {
        pair_error(item_owner, "owner_user_id"@, target, "target_user_id"@)
    }
}

pub open spec fn friend_check(owner: Seq<char>) -> spec_fn(FriendInfo) -> Option<ErrorView> {
    |f: FriendInfo| relation_item_error(owner, f.owner_user_id@, f.friend_user_id@)
}

pub open spec fn black_check(owner: Seq<char>) -> spec_fn(BlacklistInfo) -> Option<ErrorView> {
    |b: BlacklistInfo| relation_item_error(owner, b.owner_user_id@, b.blocked_user_id@)
}

/// The error of a sync request: an empty owner, or the first bad item.
pub open spec fn sync_error<T>(owner: Seq<char>, items: Seq<T>, check: spec_fn(T) -> Option<ErrorView>) -> Option<
    ErrorView,
> {
    if owner.len() == 0 {
        Some(error_of(10002, empty_message("owner_user_id"@)))
    } else {
        first_error(items, check)
    }
}

fn ensure_owner(expected: &str, actual: &str) -> (r: Result<(), OpenImError>)
    ensures
        r is Ok <==> expected@ == actual@,
        r matches Err(e) ==> e@ == owner_mismatch(),
{
    if !str_eq(expected, actual) {
        Err(OpenImError::args("server item owner_user_id mismatch"))
    } else {
        Ok(())
    }
}

fn check_relation_item(owner: &str, item_owner: &str, target: &str) -> (r: Result<(), OpenImError>)
    ensures
        r is Ok <==> relation_item_error(owner@, item_owner@, target@) is None,
        r matches Err(e) ==> Some(e@) == relation_item_error(owner@, item_owner@, target@),
{
    ensure_owner(owner, item_owner)?;
    ensure_pair(item_owner, "owner_user_id", target, "target_user_id")
}

/// A repository of friends.
pub trait FriendRepository {
    fn save_friend(&mut self, friend: FriendInfo) -> Result<(), OpenImError>;

    fn remove_friend(&mut self, owner_user_id: &str, friend_user_id: &str) -> Result<(), OpenImError>;

    fn load_friends(&self, owner_user_id: &str) -> Result<Vec<FriendInfo>, OpenImError>;
}

/// A repository of blacklist entries.
pub trait BlacklistRepository {
    fn save_blacklist(&mut self, black: BlacklistInfo) -> Result<(), OpenImError>;

    fn remove_blacklist(&mut self, owner_user_id: &str, blocked_user_id: &str) -> Result<
        (),
        OpenImError,
    >;

    fn load_blacklist(&self, owner_user_id: &str) -> Result<Vec<BlacklistInfo>, OpenImError>;
}

/// Friends and blacklist entries, keyed by owner and target user.
pub struct RelationService {
    friends: KeyedStore<FriendInfo>,
    blacklist: KeyedStore<BlacklistInfo>,
}

impl Default for RelationService {
    fn default() -> (r: RelationService)
        ensures
            r.friends_view() == Map::<Key, FriendInfo>::empty(),
            r.blacklist_view() == Map::<Key, BlacklistInfo>::empty(),
    {
        RelationService::new()
    }
}

impl RelationService {
    pub closed spec fn friends_view(&self) -> Map<Key, FriendInfo> {
        self.friends.view()
    }

    pub closed spec fn blacklist_view(&self) -> Map<Key, BlacklistInfo> {
        self.blacklist.view()
    }

    pub fn new() -> (r: RelationService)
        ensures
            r.friends_view() == Map::<Key, FriendInfo>::empty(),
            r.blacklist_view() == Map::<Key, BlacklistInfo>::empty(),
    {
        RelationService { friends: KeyedStore::new(), blacklist: KeyedStore::new() }
    }

    pub fn upsert_friend(&mut self, friend: FriendInfo) -> (r: Result<(), OpenImError>)
        ensures
            r is Ok <==> pair_error(friend.owner_user_id@, "owner_user_id"@, friend.friend_user_id@, "target_user_id"@) is None,
            r matches Err(e) ==> Some(e@) == pair_error(friend.owner_user_id@, "owner_user_id"@, friend.friend_user_id@, "target_user_id"@)
                && final(self).friends_view() == old(self).friends_view(),
            r is Ok ==> final(self).friends_view() == old(self).friends_view().insert(
                friend.spec_key(),
                friend,
            ),
            final(self).blacklist_view() == old(self).blacklist_view(),
    {
        ensure_pair(friend.owner_user_id.as_str(), "owner_user_id", friend.friend_user_id.as_str(), "target_user_id")?;
        self.friends.upsert(friend);
        Ok(())
    }

    pub fn delete_friend(&mut self, owner_user_id: &str, friend_user_id: &str) -> (r: Result<
        (),
        OpenImError,
    >)
        ensures
            r is Ok <==> pair_error(owner_user_id@, "owner_user_id"@, friend_user_id@, "target_user_id"@) is None,
            r matches Err(e) ==> Some(e@) == pair_error(owner_user_id@, "owner_user_id"@, friend_user_id@, "target_user_id"@)
                && final(self).friends_view() == old(self).friends_view(),
            r is Ok ==> final(self).friends_view() == old(self).friends_view().remove(
                (owner_user_id@, friend_user_id@),
            ),
            final(self).blacklist_view() == old(self).blacklist_view(),
    {
        ensure_pair(owner_user_id, "owner_user_id", friend_user_id, "target_user_id")?;
        self.friends.remove(owner_user_id, friend_user_id);
        Ok(())
    }

    pub fn get_friend(&self, owner_user_id: &str, friend_user_id: &str) -> (r: Result<
        Option<FriendInfo>,
        OpenImError,
    >)
        ensures
            r is Ok <==> pair_error(owner_user_id@, "owner_user_id"@, friend_user_id@, "target_user_id"@) is None,
            r matches Err(e) ==> Some(e@) == pair_error(owner_user_id@, "owner_user_id"@, friend_user_id@, "target_user_id"@),
            r matches Ok(o) ==> (o is Some <==> self.friends_view().contains_key(
                (owner_user_id@, friend_user_id@),
            )),
            r matches Ok(Some(f)) ==> f == self.friends_view()[(owner_user_id@, friend_user_id@)],
    {
        ensure_pair(owner_user_id, "owner_user_id", friend_user_id, "target_user_id")?;
        match self.friends.get(owner_user_id, friend_user_id) {
            Some(f) => Ok(Some(f.duplicate())),
            None => Ok(None),
        }
    }

    /// The owner's friends, ordered by friend id.
    pub fn all_friends(&self, owner_user_id: &str) -> (r: Result<Vec<FriendInfo>, OpenImError>)
        ensures
            r is Ok <==> owner_user_id@.len() > 0,
            r matches Err(e) ==> e@ == error_of(10002, empty_message("owner_user_id"@)),
            r matches Ok(v) ==> v@ == listing(self.friends_view(), owner_user_id@),
    {
        ensure_not_empty(owner_user_id, "owner_user_id")?;
        Ok(list_of(&self.friends, owner_user_id))
    }

    /// Makes the owner's friends match the server's list: inserts and updates
    /// store server items, local friends missing from the server are removed.
    pub fn sync_friends(&mut self, owner_user_id: &str, server_friends: Vec<FriendInfo>) -> (r:
        Result<DomainSyncSummary, OpenImError>)
        ensures
            r is Ok <==> sync_error(owner_user_id@, server_friends@, friend_check(owner_user_id@)) is None,
            r matches Err(e) ==> Some(e@) == sync_error(owner_user_id@, server_friends@, friend_check(owner_user_id@))
                && final(self).friends_view() == old(self).friends_view(),
            r matches Ok(s) ==> {
                let plan = spec_diff(
                    server_friends@,
                    listing(old(self).friends_view(), owner_user_id@),
                    DiffOptions { skip_deletion: false, include_unchanged: true },
                );
                &&& final(self).friends_view() == apply_actions(old(self).friends_view(), plan)
                &&& s == summary_of(plan)
            },
            final(self).blacklist_view() == old(self).blacklist_view(),
    {
        ensure_not_empty(owner_user_id, "owner_user_id")?;
        let mut i: usize = 0;
        assert(server_friends@.skip(0) =~= server_friends@);
        while i < server_friends.len()
            invariant
                i <= server_friends@.len(),
                owner_user_id@.len() > 0,
                first_error(server_friends@, friend_check(owner_user_id@)) == first_error(
                    server_friends@.skip(i as int),
                    friend_check(owner_user_id@),
                ),
            decreases server_friends.len() - i,
        {
            let f = &server_friends[i];
            assert(server_friends@.skip(i as int)[0] == *f);
            if let Err(e) = check_relation_item(owner_user_id, f.owner_user_id.as_str(), f.friend_user_id.as_str()) {
                assert(first_error(server_friends@.skip(i as int), friend_check(owner_user_id@)) == Some(e@));
                return Err(e);
            }
            proof {
                lemma_first_error_skip(server_friends@, friend_check(owner_user_id@), i as int);
            }
            i = i + 1;
        }
        assert(server_friends@.skip(i as int) =~= Seq::<FriendInfo>::empty());
        let local = list_of(&self.friends, owner_user_id);
        let plan = diff_by(server_friends.as_slice(), local.as_slice(), DiffOptions::default());
        Ok(apply_plan(&mut self.friends, &plan.actions))
    }

    pub fn upsert_blacklist(&mut self, black: BlacklistInfo) -> (r: Result<(), OpenImError>)
        ensures
            r is Ok <==> pair_error(black.owner_user_id@, "owner_user_id"@, black.blocked_user_id@, "target_user_id"@) is None,
            r matches Err(e) ==> Some(e@) == pair_error(black.owner_user_id@, "owner_user_id"@, black.blocked_user_id@, "target_user_id"@)
                && final(self).blacklist_view() == old(self).blacklist_view(),
            r is Ok ==> final(self).blacklist_view() == old(self).blacklist_view().insert(
                black.spec_key(),
                black,
            ),
            final(self).friends_view() == old(self).friends_view(),
    {
        ensure_pair(black.owner_user_id.as_str(), "owner_user_id", black.blocked_user_id.as_str(), "target_user_id")?;
        self.blacklist.upsert(black);
        Ok(())
    }

    pub fn delete_blacklist(&mut self, owner_user_id: &str, blocked_user_id: &str) -> (r: Result<
        (),
        OpenImError,
    >)
        ensures
            r is Ok <==> pair_error(owner_user_id@, "owner_user_id"@, blocked_user_id@, "target_user_id"@) is None,
            r matches Err(e) ==> Some(e@) == pair_error(owner_user_id@, "owner_user_id"@, blocked_user_id@, "target_user_id"@)
                && final(self).blacklist_view() == old(self).blacklist_view(),
            r is Ok ==> final(self).blacklist_view() == old(self).blacklist_view().remove(
                (owner_user_id@, blocked_user_id@),
            ),
            final(self).friends_view() == old(self).friends_view(),
    {
        ensure_pair(owner_user_id, "owner_user_id", blocked_user_id, "target_user_id")?;
        self.blacklist.remove(owner_user_id, blocked_user_id);
        Ok(())
    }

    /// The owner's blacklist, ordered by blocked user id.
    pub fn all_blacklist(&self, owner_user_id: &str) -> (r: Result<Vec<BlacklistInfo>, OpenImError>)
        ensures
            r is Ok <==> owner_user_id@.len() > 0,
            r matches Err(e) ==> e@ == error_of(10002, empty_message("owner_user_id"@)),
            r matches Ok(v) ==> v@ == listing(self.blacklist_view(), owner_user_id@),
    {
        ensure_not_empty(owner_user_id, "owner_user_id")?;
        Ok(list_of(&self.blacklist, owner_user_id))
    }

    /// Makes the owner's blacklist match the server's list.
    pub fn sync_blacklist(&mut self, owner_user_id: &str, server_blacklist: Vec<BlacklistInfo>) -> (r:
        Result<DomainSyncSummary, OpenImError>)
        ensures
            r is Ok <==> sync_error(owner_user_id@, server_blacklist@, black_check(owner_user_id@)) is None,
            r matches Err(e) ==> Some(e@) == sync_error(owner_user_id@, server_blacklist@, black_check(owner_user_id@))
                && final(self).blacklist_view() == old(self).blacklist_view(),
            r matches Ok(s) ==> {
                let plan = spec_diff(
                    server_blacklist@,
                    listing(old(self).blacklist_view(), owner_user_id@),
                    DiffOptions { skip_deletion: false, include_unchanged: true },
                );
                &&& final(self).blacklist_view() == apply_actions(old(self).blacklist_view(), plan)
                &&& s == summary_of(plan)
            },
            final(self).friends_view() == old(self).friends_view(),
    {
        ensure_not_empty(owner_user_id, "owner_user_id")?;
        let mut i: usize = 0;
        assert(server_blacklist@.skip(0) =~= server_blacklist@);
        while i < server_blacklist.len()
            invariant
                i <= server_blacklist@.len(),
                owner_user_id@.len() > 0,
                first_error(server_blacklist@, black_check(owner_user_id@)) == first_error(
                    server_blacklist@.skip(i as int),
                    black_check(owner_user_id@),
                ),
            decreases server_blacklist.len() - i,
        {
            let b = &server_blacklist[i];
            assert(server_blacklist@.skip(i as int)[0] == *b);
            if let Err(e) = check_relation_item(owner_user_id, b.owner_user_id.as_str(), b.blocked_user_id.as_str()) {
                assert(first_error(server_blacklist@.skip(i as int), black_check(owner_user_id@)) == Some(e@));
                return Err(e);
            }
            proof {
                lemma_first_error_skip(server_blacklist@, black_check(owner_user_id@), i as int);
            }
            i = i + 1;
        }
        assert(server_blacklist@.skip(i as int) =~= Seq::<BlacklistInfo>::empty());
        let local = list_of(&self.blacklist, owner_user_id);
        let plan = diff_by(server_blacklist.as_slice(), local.as_slice(), DiffOptions::default());
        Ok(apply_plan(&mut self.blacklist, &plan.actions))
    }
}

impl FriendRepository for RelationService {
    fn save_friend(&mut self, friend: FriendInfo) -> (r: Result<(), OpenImError>)
        ensures
            r is Ok <==> pair_error(friend.owner_user_id@, "owner_user_id"@, friend.friend_user_id@, "target_user_id"@) is None,
            r matches Err(e) ==> Some(e@) == pair_error(friend.owner_user_id@, "owner_user_id"@, friend.friend_user_id@, "target_user_id"@)
                && final(self).friends_view() == old(self).friends_view(),
            final(self).blacklist_view() == old(self).blacklist_view(),
            r is Ok ==> final(self).friends_view() == old(self).friends_view().insert(
                friend.spec_key(),
                friend,
            ),
    {
        self.upsert_friend(friend)
    }

    fn remove_friend(&mut self, owner_user_id: &str, friend_user_id: &str) -> (r: Result<
        (),
        OpenImError,
    >)
        ensures
            r is Ok <==> pair_error(owner_user_id@, "owner_user_id"@, friend_user_id@, "target_user_id"@) is None,
            r matches Err(e) ==> Some(e@) == pair_error(owner_user_id@, "owner_user_id"@, friend_user_id@, "target_user_id"@)
                && final(self).friends_view() == old(self).friends_view(),
            final(self).blacklist_view() == old(self).blacklist_view(),
            r is Ok ==> final(self).friends_view() == old(self).friends_view().remove(
                (owner_user_id@, friend_user_id@),
            ),
    {
        self.delete_friend(owner_user_id, friend_user_id)
    }

    fn load_friends(&self, owner_user_id: &str) -> (r: Result<Vec<FriendInfo>, OpenImError>)
        ensures
            r is Ok <==> owner_user_id@.len() > 0,
            r matches Err(e) ==> e@ == error_of(10002, empty_message("owner_user_id"@)),
            r matches Ok(v) ==> v@ == listing(self.friends_view(), owner_user_id@),
    {
        self.all_friends(owner_user_id)
    }
}

impl BlacklistRepository for RelationService {
    fn save_blacklist(&mut self, black: BlacklistInfo) -> (r: Result<(), OpenImError>)
        ensures
            r is Ok <==> pair_error(black.owner_user_id@, "owner_user_id"@, black.blocked_user_id@, "target_user_id"@) is None,
            r matches Err(e) ==> Some(e@) == pair_error(black.owner_user_id@, "owner_user_id"@, black.blocked_user_id@, "target_user_id"@)
                && final(self).blacklist_view() == old(self).blacklist_view(),
            final(self).friends_view() == old(self).friends_view(),
            r is Ok ==> final(self).blacklist_view() == old(self).blacklist_view().insert(
                black.spec_key(),
                black,
            ),
    {
        self.upsert_blacklist(black)
    }

    fn remove_blacklist(&mut self, owner_user_id: &str, blocked_user_id: &str) -> (r: Result<
        (),
        OpenImError,
    >)
        ensures
            r is Ok <==> pair_error(owner_user_id@, "owner_user_id"@, blocked_user_id@, "target_user_id"@) is None,
            r matches Err(e) ==> Some(e@) == pair_error(owner_user_id@, "owner_user_id"@, blocked_user_id@, "target_user_id"@)
                && final(self).blacklist_view() == old(self).blacklist_view(),
            final(self).friends_view() == old(self).friends_view(),
            r is Ok ==> final(self).blacklist_view() == old(self).blacklist_view().remove(
                (owner_user_id@, blocked_user_id@),
            ),
    {
        self.delete_blacklist(owner_user_id, blocked_user_id)
    }

    fn load_blacklist(&self, owner_user_id: &str) -> (r: Result<Vec<BlacklistInfo>, OpenImError>)
        ensures
            r is Ok <==> owner_user_id@.len() > 0,
            r matches Err(e) ==> e@ == error_of(10002, empty_message("owner_user_id"@)),
            r matches Ok(v) ==> v@ == listing(self.blacklist_view(), owner_user_id@),
    {
        self.all_blacklist(owner_user_id)
    }
}


impl RelationService {
    /// Friend sync law: after a successful sync of `owner`'s friends with
    /// server friends of distinct friend ids, the owner has exactly one
    /// friend entry per server friend, holding that friend's values, and the
    /// friends of every other owner are as they were.
    pub proof fn law_friend_sync_mirrors_server(self, owner: Seq<char>, server: Seq<FriendInfo>)
        requires
            sync_error(owner, server, friend_check(owner)) is None,
            distinct_sync_keys(server),
        ensures
            mirrors_scope(
                self.friends_view(),
                owner,
                server,
                fully_synced(self.friends_view(), server, listing(self.friends_view(), owner)),
            ),
    {
        self.friends.lemma_keyed();
        lemma_first_error_none(server, friend_check(owner));
        assert forall|i: int| 0 <= i < server.len() implies (#[trigger] server[i].spec_key()).0 == owner by {
            assert(friend_check(owner)(server[i]) is None);
        }
        lemma_scope_sync_mirrors(self.friends_view(), owner, server);
    }

    /// Blacklist sync law: after a successful sync of `owner`'s blacklist
    /// with server entries of distinct blocked ids, the owner has exactly one
    /// blacklist entry per server entry, holding its values, and the
    /// blacklists of every other owner are as they were.
    pub proof fn law_blacklist_sync_mirrors_server(self, owner: Seq<char>, server: Seq<BlacklistInfo>)
        requires
            sync_error(owner, server, black_check(owner)) is None,
            distinct_sync_keys(server),
        ensures
            mirrors_scope(
                self.blacklist_view(),
                owner,
                server,
                fully_synced(self.blacklist_view(), server, listing(self.blacklist_view(), owner)),
            ),
    {
        self.blacklist.lemma_keyed();
        lemma_first_error_none(server, black_check(owner));
        assert forall|i: int| 0 <= i < server.len() implies (#[trigger] server[i].spec_key()).0 == owner by {
            assert(black_check(owner)(server[i]) is None);
        }
        lemma_scope_sync_mirrors(self.blacklist_view(), owner, server);
    }
}


impl RelationService {
    /// Listing law: an owner's friend and blacklist listings each hold
    /// every stored entry of the owner once, as stored, in list order, and
    /// nothing else.
    pub proof fn law_listings_list_owner(self, owner: Seq<char>)
        ensures
            lists_scope(listing(self.friends_view(), owner), self.friends_view(), owner),
            lists_scope(listing(self.blacklist_view(), owner), self.blacklist_view(), owner),
    {
        self.friends.lemma_keyed();
        self.blacklist.lemma_keyed();
        lemma_listing_lists(self.friends_view(), owner);
        lemma_listing_lists(self.blacklist_view(), owner);
    }
}

} // verus!
