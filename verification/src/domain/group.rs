//! Joined groups and their members.
use vstd::prelude::*;

use crate::domain::{
    apply_actions, apply_plan, distinct_sync_keys, fully_synced, lemma_listing_lists,
    lemma_scope_sync_mirrors, list_of, listing, lists_scope, mirrors_scope, summary_of, DomainSyncSummary,
};
use crate::errors::lemma_first_error_none;
use crate::errors::{
    empty_message, ensure_not_empty, ensure_pair, error_of, first_error, lemma_first_error_skip,
    pair_error, ErrorView, OpenImError,
};
use crate::keyed::{Duplicate, Key, Keyed, KeyedStore, ListOrder};
use crate::sync::{deletions, diff_by, has_sync_key, server_actions, spec_diff, DiffOptions, SyncAction, SyncItem};
use crate::text::{lemma_lt_strict_total, lemma_pair_before, pair_before, pair_before_exec, seq_lt, str_before, str_eq};

verus! {

#[derive(Debug, Clone, PartialEq, Eq)]
pub struct GroupInfo {
    pub group_id: String,
    pub group_name: String,
    pub face_url: String,
    pub owner_user_id: String,
    pub member_count: u32,
    pub updated_at: i64,
}

#[derive(Debug, Clone, PartialEq, Eq)]
pub struct GroupMemberInfo {
    pub group_id: String,
    pub user_id: String,
    pub nickname: String,
    pub face_url: String,
    pub role_level: i32,
    pub join_time: i64,
}

impl Duplicate for GroupInfo {
    fn duplicate(&self) -> (r: GroupInfo)
        ensures
            r == *self,
    {
        GroupInfo {
            group_id: self.group_id.clone(),
            group_name: self.group_name.clone(),
            face_url: self.face_url.clone(),
            owner_user_id: self.owner_user_id.clone(),
            member_count: self.member_count,
            updated_at: self.updated_at,
        }
    }
}

/// The key of a group: no scope, and the group id.
pub open spec fn group_key(group_id: Seq<char>) -> Key {
    (Seq::empty(), group_id)
}

impl Keyed for GroupInfo {
    open spec fn spec_key(&self) -> Key {
        group_key(self.group_id@)
    }

    fn key_is(&self, scope: &str, id: &str) -> (r: bool) {
        if scope.is_empty() {
            assert(scope@ =~= Seq::<char>::empty());
            str_eq(self.group_id.as_str(), id)
        } else {
            false
        }
    }

    fn same_key(&self, other: &Self) -> (r: bool) {
        self.group_id.eq(&other.group_id)
    }

    fn in_scope(&self, scope: &str) -> (r: bool) {
        let r = scope.is_empty();
        if r {
            assert(scope@ =~= Seq::<char>::empty());
        }
        r
    }
}

impl ListOrder for GroupInfo {
    /// By group id.
    open spec fn spec_before(&self, other: &Self) -> bool {
        seq_lt(self.group_id@, other.group_id@)
    }

    fn before(&self, other: &Self) -> (r: bool) {
        str_before(self.group_id.as_str(), other.group_id.as_str())
    }

    proof fn lemma_strict_total(a: Self, b: Self, c: Self) {
        lemma_lt_strict_total(a.group_id@, b.group_id@, c.group_id@);
    }
}

impl SyncItem for GroupInfo {
    open spec fn sync_key(&self) -> Seq<char> {
        self.group_id@
    }

    open spec fn same_value(&self, other: &Self) -> bool {
        &&& self.group_id@ == other.group_id@
        &&& self.group_name@ == other.group_name@
        &&& self.face_url@ == other.face_url@
        &&& self.owner_user_id@ == other.owner_user_id@
        &&& self.member_count == other.member_count
        &&& self.updated_at == other.updated_at
    }

    fn sync_id(&self) -> (r: String) {
        self.group_id.clone()
    }

    fn same_sync_key(&self, other: &Self) -> (r: bool) {
        self.group_id.eq(&other.group_id)
    }

    fn same(&self, other: &Self) -> (r: bool) {
        self.group_id.eq(&other.group_id) && self.group_name.eq(&other.group_name)
            && self.face_url.eq(&other.face_url) && self.owner_user_id.eq(&other.owner_user_id)
            && self.member_count == other.member_count && self.updated_at == other.updated_at
    }
}

impl Duplicate for GroupMemberInfo {
    fn duplicate(&self) -> (r: GroupMemberInfo)
        ensures
            r == *self,
    {
        GroupMemberInfo {
            group_id: self.group_id.clone(),
            user_id: self.user_id.clone(),
            nickname: self.nickname.clone(),
            face_url: self.face_url.clone(),
            role_level: self.role_level,
            join_time: self.join_time,
        }
    }
}

impl Keyed for GroupMemberInfo {
    open spec fn spec_key(&self) -> Key {
        (self.group_id@, self.user_id@)
    }

    fn key_is(&self, scope: &str, id: &str) -> (r: bool) {
        str_eq(self.group_id.as_str(), scope) && str_eq(self.user_id.as_str(), id)
    }

    fn same_key(&self, other: &Self) -> (r: bool) {
        self.group_id.eq(&other.group_id) && self.user_id.eq(&other.user_id)
    }

    fn in_scope(&self, scope: &str) -> (r: bool) {
        str_eq(self.group_id.as_str(), scope)
    }
}

impl ListOrder for GroupMemberInfo {
    /// By user id, then group id.
    open spec fn spec_before(&self, other: &Self) -> bool {
        pair_before((self.user_id@, self.group_id@), (other.user_id@, other.group_id@))
    }

    fn before(&self, other: &Self) -> (r: bool) {
        pair_before_exec(
            self.user_id.as_str(),
            self.group_id.as_str(),
            other.user_id.as_str(),
            other.group_id.as_str(),
        )
    }

    proof fn lemma_strict_total(a: Self, b: Self, c: Self) {
        lemma_pair_before(
            (a.user_id@, a.group_id@),
            (b.user_id@, b.group_id@),
            (c.user_id@, c.group_id@),
        );
    }
}

impl SyncItem for GroupMemberInfo {
    open spec fn sync_key(&self) -> Seq<char> {
        self.user_id@
    }

    open spec fn same_value(&self, other: &Self) -> bool {
        &&& self.group_id@ == other.group_id@
        &&& self.user_id@ == other.user_id@
        &&& self.nickname@ == other.nickname@
        &&& self.face_url@ == other.face_url@
        &&& self.role_level == other.role_level
        &&& self.join_time == other.join_time
    }

    fn sync_id(&self) -> (r: String) {
        self.user_id.clone()
    }

    fn same_sync_key(&self, other: &Self) -> (r: bool) {
        self.user_id.eq(&other.user_id)
    }

    fn same(&self, other: &Self) -> (r: bool) {
        self.group_id.eq(&other.group_id) && self.user_id.eq(&other.user_id) && self.nickname.eq(
            &other.nickname,
        ) && self.face_url.eq(&other.face_url) && self.role_level == other.role_level
            && self.join_time == other.join_time
    }
}

pub open spec fn group_check() -> spec_fn(GroupInfo) -> Option<ErrorView> {
    |g: GroupInfo|
        if g.group_id@.len() == 0 {
            Some(error_of(10002, empty_message("group_id"@)))
        } else {
            None
        }
}

/// The error for a server member of another group.
pub open spec fn group_mismatch() -> ErrorView {
    error_of(10002, "server member group_id mismatch"@)
}

pub open spec fn member_check(group_id: Seq<char>) -> spec_fn(GroupMemberInfo) -> Option<ErrorView> {
    |m: GroupMemberInfo|
        match pair_error(m.group_id@, "group_id"@, m.user_id@, "user_id"@) {
            Some(e) => Some(e),
            None => if m.group_id@ != group_id {
                Some(group_mismatch())
            } else {
                None
            },
        }
}

/// The members left after removing every member of the groups that a plan
/// deletes.
pub open spec fn without_deleted_groups(
    m: Map<Key, GroupMemberInfo>,
    actions: Seq<SyncAction<GroupInfo>>,
) -> Map<Key, GroupMemberInfo>
    decreases actions.len(),
{
    if actions.len() == 0 {
        m
    } else {
        let before = without_deleted_groups(m, actions.drop_last());
        match actions.last() {
            SyncAction::Delete { local } => before.restrict(
                before.dom().filter(|k: Key| k.0 != local.group_id@),
            ),
            _ => before,
        }
    }
}

fn check_member(group_id: &str, m: &GroupMemberInfo) -> (r: Result<(), OpenImError>)
    ensures
        r is Ok <==> member_check(group_id@)(*m) is None,
        r matches Err(e) ==> Some(e@) == member_check(group_id@)(*m),
{
    ensure_pair(m.group_id.as_str(), "group_id", m.user_id.as_str(), "user_id")?;
    if !str_eq(m.group_id.as_str(), group_id) {
        return Err(OpenImError::args("server member group_id mismatch"));
    }
    Ok(())
}

/// Joined groups and group members.
pub struct GroupService {
    groups: KeyedStore<GroupInfo>,
    members: KeyedStore<GroupMemberInfo>,
}

impl Default for GroupService {
    fn default() -> (r: GroupService)
        ensures
            r.groups_view() == Map::<Key, GroupInfo>::empty(),
            r.members_view() == Map::<Key, GroupMemberInfo>::empty(),
    {
        GroupService::new()
    }
}

impl GroupService {
    pub closed spec fn groups_view(&self) -> Map<Key, GroupInfo> {
        self.groups.view()
    }

    pub closed spec fn members_view(&self) -> Map<Key, GroupMemberInfo> {
        self.members.view()
    }

    pub fn new() -> (r: GroupService)
        ensures
            r.groups_view() == Map::<Key, GroupInfo>::empty(),
            r.members_view() == Map::<Key, GroupMemberInfo>::empty(),
    {
        GroupService { groups: KeyedStore::new(), members: KeyedStore::new() }
    }

    pub fn upsert_group(&mut self, group: GroupInfo) -> (r: Result<(), OpenImError>)
        ensures
            r is Ok <==> group.group_id@.len() > 0,
            r matches Err(e) ==> e@ == error_of(10002, empty_message("group_id"@))
                && final(self).groups_view() == old(self).groups_view(),
            r is Ok ==> final(self).groups_view() == old(self).groups_view().insert(
                group_key(group.group_id@),
                group,
            ),
            final(self).members_view() == old(self).members_view(),
    {
        ensure_not_empty(group.group_id.as_str(), "group_id")?;
        self.groups.upsert(group);
        Ok(())
    }

    pub fn get_group(&self, group_id: &str) -> (r: Result<Option<GroupInfo>, OpenImError>)
        ensures
            r is Err <==> group_id@.len() == 0,
            r matches Err(e) ==> e@ == error_of(10002, empty_message("group_id"@)),
            r matches Ok(o) ==> (o is Some <==> self.groups_view().contains_key(group_key(group_id@))),
            r matches Ok(Some(g)) ==> g == self.groups_view()[group_key(group_id@)],
    {
        ensure_not_empty(group_id, "group_id")?;
        proof {
            reveal_strlit("");
            assert(""@ =~= Seq::<char>::empty());
        }
        match self.groups.get("", group_id) {
            Some(g) => Ok(Some(g.duplicate())),
            None => Ok(None),
        }
    }

    /// All joined groups, ordered by group id.
    pub fn joined_groups(&self) -> (r: Vec<GroupInfo>)
        ensures
            r@ == listing(self.groups_view(), Seq::empty()),
    {
        proof {
            reveal_strlit("");
            assert(""@ =~= Seq::<char>::empty());
        }
        list_of(&self.groups, "")
    }

    /// Makes the joined groups match the server's list; the members of a
    /// removed group are removed too.
    pub fn sync_groups(&mut self, server_groups: Vec<GroupInfo>) -> (r: Result<
        DomainSyncSummary,
        OpenImError,
    >)
        ensures
            r is Ok <==> first_error(server_groups@, group_check()) is None,
            r matches Err(e) ==> Some(e@) == first_error(server_groups@, group_check())
                && final(self).groups_view() == old(self).groups_view()
                && final(self).members_view() == old(self).members_view(),
            r matches Ok(s) ==> {
                let plan = spec_diff(
                    server_groups@,
                    listing(old(self).groups_view(), Seq::empty()),
                    DiffOptions { skip_deletion: false, include_unchanged: true },
                );
                &&& final(self).groups_view() == apply_actions(old(self).groups_view(), plan)
                &&& final(self).members_view() == without_deleted_groups(old(self).members_view(), plan)
                &&& s == summary_of(plan)
            },
    {
        let mut i: usize = 0;
        assert(server_groups@.skip(0) =~= server_groups@);
        while i < server_groups.len()
            invariant
                i <= server_groups@.len(),
                first_error(server_groups@, group_check()) == first_error(
                    server_groups@.skip(i as int),
                    group_check(),
                ),
            decreases server_groups.len() - i,
        {
            let g = &server_groups[i];
            assert(server_groups@.skip(i as int)[0] == *g);
            if let Err(e) = ensure_not_empty(g.group_id.as_str(), "group_id") {
                assert(first_error(server_groups@.skip(i as int), group_check()) == Some(e@));
                return Err(e);
            }
            proof {
                lemma_first_error_skip(server_groups@, group_check(), i as int);
            }
            i = i + 1;
        }
        assert(server_groups@.skip(i as int) =~= Seq::<GroupInfo>::empty());
        let local = self.joined_groups();
        let plan = diff_by(server_groups.as_slice(), local.as_slice(), DiffOptions::default());
        let summary = apply_plan(&mut self.groups, &plan.actions);
        let mut j: usize = 0;
        let ghost m0 = self.members.view();
        let ghost g1 = self.groups.view();
        while j < plan.actions.len()
            invariant
                j <= plan.actions@.len(),
                self.groups.view() == g1,
                self.members.view() == without_deleted_groups(m0, plan.actions@.take(j as int)),
            decreases plan.actions.len() - j,
        {
            assert(plan.actions@.take(j + 1).drop_last() =~= plan.actions@.take(j as int));
            assert(plan.actions@.take(j + 1).last() == plan.actions@[j as int]);
            if let SyncAction::Delete { local } = &plan.actions[j] {
                self.members.remove_scope(local.group_id.as_str());
            }
            j = j + 1;
        }
        assert(plan.actions@.take(j as int) =~= plan.actions@);
        Ok(summary)
    }

    pub fn upsert_member(&mut self, member: GroupMemberInfo) -> (r: Result<(), OpenImError>)
        ensures
            r is Ok <==> pair_error(member.group_id@, "group_id"@, member.user_id@, "user_id"@) is None,
            r matches Err(e) ==> Some(e@) == pair_error(member.group_id@, "group_id"@, member.user_id@, "user_id"@)
                && final(self).members_view() == old(self).members_view(),
            r is Ok ==> final(self).members_view() == old(self).members_view().insert(
                member.spec_key(),
                member,
            ),
            final(self).groups_view() == old(self).groups_view(),
    {
        ensure_pair(member.group_id.as_str(), "group_id", member.user_id.as_str(), "user_id")?;
        self.members.upsert(member);
        Ok(())
    }

    /// The members of a group, ordered by user id.
    pub fn group_members(&self, group_id: &str) -> (r: Result<Vec<GroupMemberInfo>, OpenImError>)
        ensures
            r is Ok <==> group_id@.len() > 0,
            r matches Err(e) ==> e@ == error_of(10002, empty_message("group_id"@)),
            r matches Ok(v) ==> v@ == listing(self.members_view(), group_id@),
    {
        ensure_not_empty(group_id, "group_id")?;
        Ok(list_of(&self.members, group_id))
    }

    /// Makes the members of one group match the server's list.
    pub fn sync_group_members(&mut self, group_id: &str, server_members: Vec<GroupMemberInfo>) -> (r:
        Result<DomainSyncSummary, OpenImError>)
        ensures
            r is Ok <==> group_id@.len() > 0 && first_error(server_members@, member_check(group_id@)) is None,
            r matches Err(e) ==> Some(e@) == (if group_id@.len() == 0 {
                Some(error_of(10002, empty_message("group_id"@)))
            } else {
                first_error(server_members@, member_check(group_id@))
            }) && final(self).members_view() == old(self).members_view(),
            r matches Ok(s) ==> {
                let plan = spec_diff(
                    server_members@,
                    listing(old(self).members_view(), group_id@),
                    DiffOptions { skip_deletion: false, include_unchanged: true },
                );
                &&& final(self).members_view() == apply_actions(old(self).members_view(), plan)
                &&& s == summary_of(plan)
            },
            final(self).groups_view() == old(self).groups_view(),
    {
        ensure_not_empty(group_id, "group_id")?;
        let mut i: usize = 0;
        assert(server_members@.skip(0) =~= server_members@);
        while i < server_members.len()
            invariant
                i <= server_members@.len(),
                group_id@.len() > 0,
                first_error(server_members@, member_check(group_id@)) == first_error(
                    server_members@.skip(i as int),
                    member_check(group_id@),
                ),
            decreases server_members.len() - i,
        {
            let m = &server_members[i];
            assert(server_members@.skip(i as int)[0] == *m);
            if let Err(e) = check_member(group_id, m) {
                assert(first_error(server_members@.skip(i as int), member_check(group_id@)) == Some(e@));
                return Err(e);
            }
            proof {
                lemma_first_error_skip(server_members@, member_check(group_id@), i as int);
            }
            i = i + 1;
        }
        assert(server_members@.skip(i as int) =~= Seq::<GroupMemberInfo>::empty());
        let local = list_of(&self.members, group_id);
        let plan = diff_by(server_members.as_slice(), local.as_slice(), DiffOptions::default());
        Ok(apply_plan(&mut self.members, &plan.actions))
    }
}


impl GroupService {
    /// Group sync law: after a successful sync with server groups of
    /// distinct ids, there is exactly one group per server group, holding
    /// that group's values, and no other group.
    pub proof fn law_group_sync_mirrors_server(self, server: Seq<GroupInfo>)
        requires
            first_error(server, group_check()) is None,
            distinct_sync_keys(server),
        ensures
            mirrors_scope(
                self.groups_view(),
                Seq::empty(),
                server,
                fully_synced(self.groups_view(), server, listing(self.groups_view(), Seq::empty())),
            ),
    {
        self.groups.lemma_keyed();
        lemma_scope_sync_mirrors(self.groups_view(), Seq::empty(), server);
    }

    /// Member sync law: after a successful sync of a group's members with
    /// server members of distinct user ids, the group has exactly one member
    /// entry per server member, holding that member's values, and the
    /// members of every other group are as they were.
    pub proof fn law_member_sync_mirrors_server(self, group_id: Seq<char>, server: Seq<GroupMemberInfo>)
        requires
            first_error(server, member_check(group_id)) is None,
            distinct_sync_keys(server),
        ensures
            mirrors_scope(
                self.members_view(),
                group_id,
                server,
                fully_synced(self.members_view(), server, listing(self.members_view(), group_id)),
            ),
    {
        self.members.lemma_keyed();
        lemma_first_error_none(server, member_check(group_id));
        assert forall|i: int| 0 <= i < server.len() implies (#[trigger] server[i].spec_key()).0 == group_id by {
            assert(member_check(group_id)(server[i]) is None);
        }
        lemma_scope_sync_mirrors(self.members_view(), group_id, server);
    }
}


/// Dropping the members of deleted groups step by step: a plan split in
/// two is the second part applied after the first.
proof fn lemma_without_deleted_concat(
    m: Map<Key, GroupMemberInfo>,
    a: Seq<SyncAction<GroupInfo>>,
    b: Seq<SyncAction<GroupInfo>>,
)
    ensures
        without_deleted_groups(m, a + b) == without_deleted_groups(without_deleted_groups(m, a), b),
    decreases b.len(),
{
    if b.len() == 0 {
        assert(a + b =~= a);
    } else {
        assert((a + b).drop_last() =~= a + b.drop_last());
        assert((a + b).last() == b.last());
        lemma_without_deleted_concat(m, a, b.drop_last());
    }
}

/// Dropping members only ever removes keys.
proof fn lemma_without_deleted_shrinks(m: Map<Key, GroupMemberInfo>, a: Seq<SyncAction<GroupInfo>>, k: Key)
    ensures
        without_deleted_groups(m, a).contains_key(k) ==> m.contains_key(k),
    decreases a.len(),
{
    if a.len() > 0 {
        lemma_without_deleted_shrinks(m, a.drop_last(), k);
    }
}

/// The deletions of a sync leave no member of a local group that the server
/// lacks.
proof fn lemma_deletions_drop_members(
    m: Map<Key, GroupMemberInfo>,
    server: Seq<GroupInfo>,
    local: Seq<GroupInfo>,
    j: int,
    k: Key,
)
    requires
        0 <= j < local.len(),
        !has_sync_key(server, local[j].sync_key()),
        k.0 == local[j].group_id@,
    ensures
        !without_deleted_groups(m, deletions(server, local)).contains_key(k),
    decreases local.len(),
{
    let lp = local.drop_last();
    let tail = if has_sync_key(server, local.last().sync_key()) {
        Seq::<SyncAction<GroupInfo>>::empty()
    } else {
        seq![SyncAction::Delete { local: local.last() }]
    };
    assert(deletions(server, local) == deletions(server, lp) + tail);
    lemma_without_deleted_concat(m, deletions(server, lp), tail);
    let mid = without_deleted_groups(m, deletions(server, lp));
    if j == local.len() - 1 {
        assert(tail.len() == 1 && tail.drop_last() =~= Seq::<SyncAction<GroupInfo>>::empty());
        assert(without_deleted_groups(mid, tail.drop_last()) == mid);
        assert(tail.last() == SyncAction::Delete { local: local.last() });
        assert(!without_deleted_groups(mid, tail).dom().contains(k));
    } else {
        assert(lp[j] == local[j]);
        lemma_deletions_drop_members(m, server, lp, j, k);
        lemma_without_deleted_shrinks(mid, tail, k);
    }
}

impl GroupService {
    /// Group removal law: when a group sync removes a group (a local group
    /// that no server group matches), none of that group's members is left.
    /// `self` is the service before the sync; `sync_groups` leaves exactly
    /// the members stated here.
    pub proof fn law_removed_group_leaves_no_members(self, server: Seq<GroupInfo>, gone: Seq<char>, k: Key)
        requires
            self.groups_view().contains_key(group_key(gone)),
            !has_sync_key(server, gone),
            k.0 == gone,
        ensures
            !without_deleted_groups(
                self.members_view(),
                spec_diff(
                    server,
                    listing(self.groups_view(), Seq::empty()),
                    DiffOptions { skip_deletion: false, include_unchanged: true },
                ),
            ).contains_key(k),
    {
        self.groups.lemma_keyed();
        let m = self.groups_view();
        let local = listing(m, Seq::empty());
        lemma_listing_lists(m, Seq::empty());
        let gk = group_key(gone);
        assert(gk.0 == Seq::<char>::empty());
        let j = choose|i: int| 0 <= i < local.len() && #[trigger] local[i].spec_key() == gk;
        assert(local[j].group_id@ == gone);
        let opts = DiffOptions { skip_deletion: false, include_unchanged: true };
        let sa = server_actions(server, local, opts);
        assert(spec_diff(server, local, opts) == sa + deletions(server, local));
        lemma_without_deleted_concat(self.members_view(), sa, deletions(server, local));
        lemma_deletions_drop_members(without_deleted_groups(self.members_view(), sa), server, local, j, k);
    }
}


impl GroupService {
    /// Listing law: the joined groups, and a group's members, are listed
    /// each once, as stored, in list order, and nothing else.
    pub proof fn law_listings_list_scope(self, group_id: Seq<char>)
        ensures
            lists_scope(listing(self.groups_view(), Seq::empty()), self.groups_view(), Seq::empty()),
            lists_scope(listing(self.members_view(), group_id), self.members_view(), group_id),
    {
        self.groups.lemma_keyed();
        self.members.lemma_keyed();
        lemma_listing_lists(self.groups_view(), Seq::empty());
        lemma_listing_lists(self.members_view(), group_id);
    }
}

} // verus!
