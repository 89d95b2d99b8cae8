//! Domain services kept by a logged-in session: users, relations, groups,
//! messages, conversations and file transfer planning.
pub mod conversation;
pub mod file;
pub mod group;
pub mod message;
pub mod relation;
pub mod user;

use vstd::prelude::*;

use crate::keyed::{
    keyed_map, lemma_listing_exists, lemma_listing_unique, lists_exactly, Key, Keyed, KeyedStore,
    ListOrder,
};
use crate::sync::{
    deletions, has_sync_key, last_key_index, server_action, server_actions, spec_diff, DiffOptions,
    SyncAction, SyncItem, SyncState,
};

verus! {

/// How many items a sync inserted, updated, deleted and left unchanged.
#[derive(Debug, Clone, Copy, PartialEq, Eq, Structural)]
pub struct DomainSyncSummary {
    pub inserted: usize,
    pub updated: usize,
    pub deleted: usize,
    pub unchanged: usize,
}

impl Default for DomainSyncSummary {
    fn default() -> (r: DomainSyncSummary)
        ensures
            r == (DomainSyncSummary { inserted: 0, updated: 0, deleted: 0, unchanged: 0 }),
    {
        DomainSyncSummary { inserted: 0, updated: 0, deleted: 0, unchanged: 0 }
    }
}

/// Number of actions of the given kind.
pub open spec fn count_state<T>(actions: Seq<SyncAction<T>>, state: SyncState) -> nat
    decreases actions.len(),
{
    if actions.len() == 0 {
        0
    } else {
        count_state(actions.drop_last(), state) + if actions.last().spec_state() == state {
            1nat
        } else {
            0nat
        }
    }
}

/// The summary of a plan: the count of each kind of action.
pub open spec fn summary_of<T>(actions: Seq<SyncAction<T>>) -> DomainSyncSummary {
    DomainSyncSummary {
        inserted: count_state(actions, SyncState::Insert) as usize,
        updated: count_state(actions, SyncState::Update) as usize,
        deleted: count_state(actions, SyncState::Delete) as usize,
        unchanged: count_state(actions, SyncState::Unchanged) as usize,
    }
}

proof fn lemma_counts_sum<T>(actions: Seq<SyncAction<T>>)
    ensures
        count_state(actions, SyncState::Insert) + count_state(actions, SyncState::Update)
            + count_state(actions, SyncState::Delete) + count_state(actions, SyncState::Unchanged)
            == actions.len(),
    decreases actions.len(),
{
    if actions.len() > 0 {
        lemma_counts_sum(actions.drop_last());
    }
}

impl DomainSyncSummary {
    /// All counted items.
    pub fn total(self) -> (r: usize)
        requires
            self.inserted + self.updated + self.deleted + self.unchanged <= usize::MAX,
        ensures
            r == self.inserted + self.updated + self.deleted + self.unchanged,
    {
        self.inserted + self.updated + self.deleted + self.unchanged
    }

    fn record(&mut self, state: SyncState)
        requires
            old(self).inserted + old(self).updated + old(self).deleted + old(self).unchanged
                < usize::MAX,
        ensures
            final(self).inserted == old(self).inserted + if state == SyncState::Insert {
                1int
            } else {
                0int
            },
            final(self).updated == old(self).updated + if state == SyncState::Update {
                1int
            } else {
                0int
            },
            final(self).deleted == old(self).deleted + if state == SyncState::Delete {
                1int
            } else {
                0int
            },
            final(self).unchanged == old(self).unchanged + if state == SyncState::Unchanged {
                1int
            } else {
                0int
            },
    {
        match state {
            SyncState::Unchanged => self.unchanged = self.unchanged + 1,
            SyncState::Insert => self.inserted = self.inserted + 1,
            SyncState::Update => self.updated = self.updated + 1,
            SyncState::Delete => self.deleted = self.deleted + 1,
        }
    }
}

/// The map after applying a plan: inserts and updates store the server
/// item, deletes remove the local item's key, unchanged notices do nothing.
pub open spec fn apply_actions<T: Keyed>(m: Map<Key, T>, actions: Seq<SyncAction<T>>) -> Map<
    Key,
    T,
>
    decreases actions.len(),
{
    if actions.len() == 0 {
        m
    } else {
        let before = apply_actions(m, actions.drop_last());
        match actions.last() {
            SyncAction::Insert { server } => before.insert(server.spec_key(), server),
            SyncAction::Update { server, .. } => before.insert(server.spec_key(), server),
            SyncAction::Delete { local } => before.remove(local.spec_key()),
            SyncAction::Unchanged { .. } => before,
        }
    }
}

/// `r` lists the entries of one scope of `m`, in list order.
pub open spec fn lists_scope<T: ListOrder>(r: Seq<T>, m: Map<Key, T>, scope: Seq<char>) -> bool {
    lists_exactly(r, m, |k: Key| k.0 == scope)
}

/// The entries of one scope of `m`, in list order.
pub open spec fn listing<T: ListOrder>(m: Map<Key, T>, scope: Seq<char>) -> Seq<T> {
    choose|r: Seq<T>| #[trigger] lists_scope(r, m, scope)
}

/// A listing that lists exactly the scope is the listing.
pub proof fn lemma_is_listing<T: ListOrder>(r: Seq<T>, m: Map<Key, T>, scope: Seq<char>)
    requires
        lists_exactly(r, m, |k: Key| k.0 == scope),
    ensures
        listing(m, scope) == r,
{
    assert(lists_scope(r, m, scope));
    let l = listing(m, scope);
    assert(lists_exactly(l, m, |k: Key| k.0 == scope));
    lemma_listing_unique(l, r, m, |k: Key| k.0 == scope);
}

/// Lists one scope of a store; the result is `listing` of it.
pub fn list_of<T: ListOrder>(store: &KeyedStore<T>, scope: &str) -> (r: Vec<T>)
    ensures
        r@ == listing(store.view(), scope@),
        lists_scope(r@, store.view(), scope@),
{
    let r = store.list_scope(scope);
    proof {
        lemma_is_listing(r@, store.view(), scope@);
    }
    r
}

/// All entries of a store, in the list order.
pub open spec fn listing_all<T: ListOrder>(m: Map<Key, T>) -> Seq<T> {
    choose|r: Seq<T>| #[trigger] lists_every(r, m)
}

/// `r` lists every entry of `m` once, in the list order.
pub open spec fn lists_every<T: ListOrder>(r: Seq<T>, m: Map<Key, T>) -> bool {
    lists_exactly(r, m, |k: Key| true)
}

/// Lists every entry of a store; the result is `listing_all` of it.
pub fn list_every<T: ListOrder>(store: &KeyedStore<T>) -> (r: Vec<T>)
    ensures
        r@ == listing_all(store.view()),
        lists_every(r@, store.view()),
{
    let r = store.list_all();
    proof {
        assert(lists_every(r@, store.view()));
        let l = listing_all(store.view());
        assert(lists_exactly(l, store.view(), |k: Key| true));
        lemma_listing_unique(l, r@, store.view(), |k: Key| true);
    }
    r
}

/// Applies a plan to a store and counts its actions.
pub fn apply_plan<T: Keyed>(store: &mut KeyedStore<T>, actions: &Vec<SyncAction<T>>) -> (r:
    DomainSyncSummary)
    ensures
        final(store).view() == apply_actions(old(store).view(), actions@),
        r == summary_of(actions@),
{
    let ghost m0 = store.view();
    let mut summary = DomainSyncSummary::default();
    let mut i: usize = 0;
    while i < actions.len()
        invariant
            i <= actions@.len(),
            store.view() == apply_actions(m0, actions@.take(i as int)),
            summary.inserted == count_state(actions@.take(i as int), SyncState::Insert),
            summary.updated == count_state(actions@.take(i as int), SyncState::Update),
            summary.deleted == count_state(actions@.take(i as int), SyncState::Delete),
            summary.unchanged == count_state(actions@.take(i as int), SyncState::Unchanged),
        decreases actions.len() - i,
    {
        let action = &actions[i];
        assert(actions@.take(i + 1).drop_last() =~= actions@.take(i as int));
        assert(actions@.take(i + 1).last() == actions@[i as int]);
        proof {
            lemma_counts_sum(actions@.take(i as int));
        }
        summary.record(action.state());
        match action {
            SyncAction::Insert { server } => {
                store.upsert(server.duplicate());
            },
            SyncAction::Update { server, .. } => {
                store.upsert(server.duplicate());
            },
            SyncAction::Delete { local } => {
                store.remove_key_of(local);
            },
            SyncAction::Unchanged { .. } => {},
        }
        i = i + 1;
    }
    assert(actions@.take(i as int) =~= actions@);
    summary
}

/// The scope of every keyed map has a listing.
pub proof fn lemma_listing_lists<T: ListOrder>(m: Map<Key, T>, scope: Seq<char>)
    requires
        keyed_map(m),
    ensures
        lists_scope(listing(m, scope), m, scope),
{
    let keep = |k: Key| k.0 == scope;
    lemma_listing_exists(m, keep);
    let r = choose|r: Seq<T>| lists_exactly(r, m, keep);
    assert(lists_scope(r, m, scope));
}

/// Within the kept part of the key space, two items have the same key
/// exactly when they have the same sync key.
pub open spec fn sync_keyed<T: SyncItem + Keyed>(keep: spec_fn(Key) -> bool) -> bool {
    forall|x: T, y: T|
        #![trigger x.spec_key(), y.spec_key()]
        keep(x.spec_key()) && keep(y.spec_key()) ==> (x.spec_key() == y.spec_key() <==> x.sync_key()
            == y.sync_key())
}

/// Every item has the same value as itself.
pub open spec fn same_value_reflexive<T: SyncItem>() -> bool {
    forall|x: T| #[trigger] x.same_value(&x)
}

/// No two items of `s` have the same sync key.
pub open spec fn distinct_sync_keys<T: SyncItem>(s: Seq<T>) -> bool {
    forall|i: int, j: int|
        0 <= i < s.len() && 0 <= j < s.len() && i != j ==> #[trigger] s[i].sync_key() != #[trigger] s[j].sync_key()
}

/// Some item of `s` has key `k`.
pub open spec fn has_item_key<T: Keyed>(s: Seq<T>, k: Key) -> bool {
    exists|i: int| 0 <= i < s.len() && #[trigger] s[i].spec_key() == k
}

/// Some item of `local` has key `k` and a sync key that no server item has:
/// the key a plan deletes.
pub open spec fn deleted_key<T: SyncItem + Keyed>(server: Seq<T>, local: Seq<T>, k: Key) -> bool {
    exists|j: int|
        0 <= j < local.len() && #[trigger] local[j].spec_key() == k && !has_sync_key(
            server,
            local[j].sync_key(),
        )
}

proof fn lemma_apply_concat<T: Keyed>(m: Map<Key, T>, a: Seq<SyncAction<T>>, b: Seq<SyncAction<T>>)
    ensures
        apply_actions(m, a + b) == apply_actions(apply_actions(m, a), b),
    decreases b.len(),
{
    if b.len() == 0 {
        assert(a + b =~= a);
    } else {
        lemma_apply_concat(m, a, b.drop_last());
        assert((a + b).drop_last() =~= a + b.drop_last());
        assert((a + b).last() == b.last());
    }
}

proof fn lemma_last_key_index<T: SyncItem>(local: Seq<T>, k: Seq<char>)
    ensures
        last_key_index(local, k) < local.len(),
        last_key_index(local, k) >= 0 ==> local[last_key_index(local, k)].sync_key() == k,
        last_key_index(local, k) < 0 ==> !has_sync_key(local, k),
    decreases local.len(),
{
    if local.len() > 0 {
        lemma_last_key_index(local.drop_last(), k);
        if last_key_index(local, k) < 0 && has_sync_key(local, k) {
            let i = choose|i: int| 0 <= i < local.len() && #[trigger] local[i].sync_key() == k;
            assert(local.drop_last()[i].sync_key() == k);
        }
    }
}

/// The server actions of a plan store each server item (or keep a local
/// item of the same value under its key) and touch no other key.
proof fn lemma_server_actions<T: SyncItem + ListOrder>(
    m: Map<Key, T>,
    keep: spec_fn(Key) -> bool,
    server: Seq<T>,
    local: Seq<T>,
    options: DiffOptions,
)
    requires
        lists_exactly(local, m, keep),
        sync_keyed::<T>(keep),
        same_value_reflexive::<T>(),
        forall|i: int| 0 <= i < server.len() ==> keep(#[trigger] server[i].spec_key()),
        distinct_sync_keys(server),
    ensures
        forall|k: Key|
            !has_item_key(server, k) ==> (apply_actions(m, server_actions(server, local, options)).contains_key(k)
                == m.contains_key(k)) && (m.contains_key(k) ==> apply_actions(
                m,
                server_actions(server, local, options),
            )[k] == m[k]),
        forall|i: int|
            0 <= i < server.len() ==> apply_actions(m, server_actions(server, local, options)).contains_key(
                #[trigger] server[i].spec_key(),
            ) && server[i].same_value(
                &apply_actions(m, server_actions(server, local, options))[server[i].spec_key()],
            ),
    decreases server.len(),
{
    if server.len() > 0 {
        let sp = server.drop_last();
        let x = server.last();
        let n = server.len() - 1;
        assert(distinct_sync_keys(sp));
        lemma_server_actions(m, keep, sp, local, options);
        let before = apply_actions(m, server_actions(sp, local, options));
        let act = server_action(x, local, options);
        lemma_apply_concat(m, server_actions(sp, local, options), act);
        let after = apply_actions(m, server_actions(server, local, options));
        assert(after == apply_actions(before, act));
        lemma_last_key_index(local, x.sync_key());
        let idx = last_key_index(local, x.sync_key());
        assert(keep(server[n].spec_key()));
        // No earlier server item has the last one's key.
        assert forall|i: int| 0 <= i < sp.len() implies #[trigger] sp[i].spec_key() != x.spec_key() by {
            assert(sp[i] == server[i]);
            assert(keep(server[i].spec_key()));
            assert(server[i].sync_key() != server[n].sync_key());
        }
        assert(!has_item_key(sp, x.spec_key()));
        if idx >= 0 {
            let l = local[idx];
            assert(m.contains_key(l.spec_key()) && m[l.spec_key()] == l && keep(l.spec_key()));
            assert(l.spec_key() == x.spec_key());
        }
        if idx < 0 || !x.same_value(&local[idx]) {
            assert(after == before.insert(x.spec_key(), x)) by {
                reveal_with_fuel(apply_actions, 2);
            }
        } else if options.include_unchanged {
            assert(after == before) by {
                reveal_with_fuel(apply_actions, 2);
            }
        } else {
            assert(act =~= Seq::<SyncAction<T>>::empty());
        }
        assert(x.same_value(&x));
        assert forall|k: Key| !has_item_key(server, k) implies (after.contains_key(k) == m.contains_key(k))
            && (m.contains_key(k) ==> after[k] == m[k]) by {
            if has_item_key(sp, k) {
                let i = choose|i: int| 0 <= i < sp.len() && #[trigger] sp[i].spec_key() == k;
                assert(server[i].spec_key() == k);
            }
            assert(k != server[n].spec_key());
        }
        assert forall|i: int| 0 <= i < server.len() implies after.contains_key(#[trigger] server[i].spec_key())
            && server[i].same_value(&after[server[i].spec_key()]) by {
            if i < n {
                assert(sp[i] == server[i]);
                assert(sp[i].spec_key() != x.spec_key());
            }
        }
    }
}

/// A plan's deletions remove the keys of the local items that the server
/// lacks and touch no other key.
proof fn lemma_deletions<T: SyncItem + Keyed>(m: Map<Key, T>, server: Seq<T>, local: Seq<T>, k: Key)
    ensures
        deleted_key(server, local, k) ==> !apply_actions(m, deletions(server, local)).contains_key(k),
        !deleted_key(server, local, k) ==> (apply_actions(m, deletions(server, local)).contains_key(k)
            == m.contains_key(k)) && (m.contains_key(k) ==> apply_actions(m, deletions(server, local))[k]
            == m[k]),
    decreases local.len(),
{
    if local.len() > 0 {
        let lp = local.drop_last();
        let y = local.last();
        let n = local.len() - 1;
        lemma_deletions(m, server, lp, k);
        let before = apply_actions(m, deletions(server, lp));
        let tail = if has_sync_key(server, y.sync_key()) {
            Seq::<SyncAction<T>>::empty()
        } else {
            seq![SyncAction::Delete { local: y }]
        };
        lemma_apply_concat(m, deletions(server, lp), tail);
        let after = apply_actions(m, deletions(server, local));
        if has_sync_key(server, y.sync_key()) {
            assert(after == before);
        } else {
            assert(after == before.remove(y.spec_key())) by {
                reveal_with_fuel(apply_actions, 2);
            }
        }
        if deleted_key(server, local, k) {
            let j = choose|j: int|
                0 <= j < local.len() && #[trigger] local[j].spec_key() == k && !has_sync_key(
                    server,
                    local[j].sync_key(),
                );
            if j < n {
                assert(lp[j] == local[j]);
                assert(deleted_key(server, lp, k));
            }
        } else {
            if deleted_key(server, lp, k) {
                let j = choose|j: int|
                    0 <= j < lp.len() && #[trigger] lp[j].spec_key() == k && !has_sync_key(
                        server,
                        lp[j].sync_key(),
                    );
                assert(local[j] == lp[j]);
                assert(local[j].spec_key() == k);
            }
            if !has_sync_key(server, y.sync_key()) && k == y.spec_key() {
                assert(local[n].spec_key() == k);
            }
        }
    }
}

/// The map after a full sync plan (deletions included, unchanged items
/// noticed).
pub open spec fn fully_synced<T: SyncItem + Keyed>(m: Map<Key, T>, server: Seq<T>, local: Seq<T>) -> Map<Key, T> {
    apply_actions(m, spec_diff(server, local, DiffOptions { skip_deletion: false, include_unchanged: true }))
}

/// The map after a merging sync plan (no deletions, unchanged items
/// noticed).
pub open spec fn merge_synced<T: SyncItem + Keyed>(m: Map<Key, T>, server: Seq<T>, local: Seq<T>) -> Map<Key, T> {
    apply_actions(m, spec_diff(server, local, DiffOptions { skip_deletion: true, include_unchanged: true }))
}

/// `after` is `m` with its `scope` part replaced by the server items:
/// outside the scope nothing changed; inside it there is an entry exactly for
/// each server item's key, holding that item's values.
pub open spec fn mirrors_scope<T: SyncItem + Keyed>(
    m: Map<Key, T>,
    scope: Seq<char>,
    server: Seq<T>,
    after: Map<Key, T>,
) -> bool {
    &&& forall|k: Key| #![trigger after.contains_key(k)] k.0 != scope ==> after.contains_key(k) == m.contains_key(k)
    &&& forall|k: Key| #![trigger after[k]] k.0 != scope && m.contains_key(k) ==> after[k] == m[k]
    &&& forall|k: Key|
        #![trigger after.contains_key(k)]
        k.0 == scope ==> (after.contains_key(k) <==> has_item_key(server, k))
    &&& forall|i: int| 0 <= i < server.len() ==> #[trigger] server[i].same_value(&after[server[i].spec_key()])
}

/// `after` is `m` with the server items merged in: each server item's key
/// holds that item's values and every other entry is as it was.
pub open spec fn merges_items<T: SyncItem + Keyed>(m: Map<Key, T>, server: Seq<T>, after: Map<Key, T>) -> bool {
    &&& forall|k: Key|
        #![trigger after.contains_key(k)]
        !has_item_key(server, k) ==> after.contains_key(k) == m.contains_key(k)
    &&& forall|k: Key| #![trigger after[k]] !has_item_key(server, k) && m.contains_key(k) ==> after[k] == m[k]
    &&& forall|i: int|
        0 <= i < server.len() ==> after.contains_key(#[trigger] server[i].spec_key())
            && server[i].same_value(&after[server[i].spec_key()])
}

/// A full sync of one scope of a keyed map mirrors the server items there.
pub proof fn lemma_scope_sync_mirrors<T: SyncItem + ListOrder>(m: Map<Key, T>, scope: Seq<char>, server: Seq<T>)
    requires
        keyed_map(m),
        forall|x: T| #[trigger] x.spec_key() == (x.spec_key().0, x.sync_key()),
        same_value_reflexive::<T>(),
        forall|i: int| 0 <= i < server.len() ==> (#[trigger] server[i].spec_key()).0 == scope,
        distinct_sync_keys(server),
    ensures
        mirrors_scope(m, scope, server, fully_synced(m, server, listing(m, scope))),
{
    let keep = |k: Key| k.0 == scope;
    lemma_listing_lists(m, scope);
    let local = listing(m, scope);
    assert(lists_exactly(local, m, keep));
    assert(sync_keyed::<T>(keep)) by {
        assert forall|x: T, y: T| #![trigger x.spec_key(), y.spec_key()] keep(x.spec_key()) && keep(y.spec_key())
            implies (x.spec_key() == y.spec_key() <==> x.sync_key() == y.sync_key()) by {
            assert(x.spec_key() == (x.spec_key().0, x.sync_key()));
            assert(y.spec_key() == (y.spec_key().0, y.sync_key()));
        }
    }
    lemma_sync_mirrors(m, keep, server, local);
}

/// A merging sync of one scope of a keyed map merges the server items in.
pub proof fn lemma_scope_sync_merges<T: SyncItem + ListOrder>(m: Map<Key, T>, scope: Seq<char>, server: Seq<T>)
    requires
        keyed_map(m),
        forall|x: T| #[trigger] x.spec_key() == (x.spec_key().0, x.sync_key()),
        same_value_reflexive::<T>(),
        forall|i: int| 0 <= i < server.len() ==> (#[trigger] server[i].spec_key()).0 == scope,
        distinct_sync_keys(server),
    ensures
        merges_items(m, server, merge_synced(m, server, listing(m, scope))),
{
    let keep = |k: Key| k.0 == scope;
    lemma_listing_lists(m, scope);
    let local = listing(m, scope);
    assert(lists_exactly(local, m, keep));
    assert(sync_keyed::<T>(keep)) by {
        assert forall|x: T, y: T| #![trigger x.spec_key(), y.spec_key()] keep(x.spec_key()) && keep(y.spec_key())
            implies (x.spec_key() == y.spec_key() <==> x.sync_key() == y.sync_key()) by {
            assert(x.spec_key() == (x.spec_key().0, x.sync_key()));
            assert(y.spec_key() == (y.spec_key().0, y.sync_key()));
        }
    }
    lemma_sync_merges(m, keep, server, local);
}

/// A full sync of the kept part of a map (deletions included) leaves that
/// part holding one entry for each server item, with the server item's
/// value, and nothing else, and leaves the rest of the map as it was.
pub proof fn lemma_sync_mirrors<T: SyncItem + ListOrder>(
    m: Map<Key, T>,
    keep: spec_fn(Key) -> bool,
    server: Seq<T>,
    local: Seq<T>,
)
    requires
        lists_exactly(local, m, keep),
        sync_keyed::<T>(keep),
        same_value_reflexive::<T>(),
        forall|i: int| 0 <= i < server.len() ==> keep(#[trigger] server[i].spec_key()),
        distinct_sync_keys(server),
    ensures
        forall|k: Key|
            #![trigger fully_synced(m, server, local).contains_key(k)]
            !keep(k) ==> (fully_synced(m, server, local).contains_key(k) == m.contains_key(k)),
        forall|k: Key|
            #![trigger fully_synced(m, server, local)[k]]
            !keep(k) && m.contains_key(k) ==> fully_synced(m, server, local)[k] == m[k],
        forall|k: Key|
            #![trigger fully_synced(m, server, local).contains_key(k)]
            keep(k) ==> (fully_synced(m, server, local).contains_key(k) <==> has_item_key(server, k)),
        forall|i: int|
            0 <= i < server.len() ==> #[trigger] server[i].same_value(
                &fully_synced(m, server, local)[server[i].spec_key()],
            ),
{
    let options = DiffOptions { skip_deletion: false, include_unchanged: true };
    lemma_server_actions(m, keep, server, local, options);
    let mid = apply_actions(m, server_actions(server, local, options));
    lemma_apply_concat(m, server_actions(server, local, options), deletions(server, local));
    let after = apply_actions(m, spec_diff(server, local, options));
    assert(after == apply_actions(mid, deletions(server, local)));
    // Deleted keys are kept keys that no server item has.
    assert forall|k: Key| deleted_key(server, local, k) implies keep(k) && !has_item_key(server, k) by {
        let j = choose|j: int|
            0 <= j < local.len() && #[trigger] local[j].spec_key() == k && !has_sync_key(
                server,
                local[j].sync_key(),
            );
        assert(keep(local[j].spec_key()));
        if has_item_key(server, k) {
            let i = choose|i: int| 0 <= i < server.len() && #[trigger] server[i].spec_key() == k;
            assert(keep(server[i].spec_key()));
            assert(server[i].sync_key() == local[j].sync_key());
            assert(has_sync_key(server, local[j].sync_key()));
        }
    }
    assert forall|k: Key| !keep(k) implies !has_item_key(server, k) by {
        if has_item_key(server, k) {
            let i = choose|i: int| 0 <= i < server.len() && #[trigger] server[i].spec_key() == k;
            assert(keep(server[i].spec_key()));
        }
    }
    assert forall|k: Key| #![trigger after.contains_key(k)] #![trigger after[k]] !keep(k) implies (
    after.contains_key(k) == m.contains_key(k)) && (m.contains_key(k) ==> after[k] == m[k]) by {
        lemma_deletions(mid, server, local, k);
        assert(!has_item_key(server, k));
        if deleted_key(server, local, k) {
            assert(keep(k));
        }
        assert(!deleted_key(server, local, k));
    }
    assert forall|k: Key| keep(k) implies (after.contains_key(k) <==> has_item_key(server, k)) by {
        lemma_deletions(mid, server, local, k);
        if has_item_key(server, k) {
            let i = choose|i: int| 0 <= i < server.len() && #[trigger] server[i].spec_key() == k;
            assert(mid.contains_key(server[i].spec_key()));
            if deleted_key(server, local, k) {
                assert(!has_item_key(server, k));
            }
        } else if !m.contains_key(k) {
            assert(!mid.contains_key(k));
            if !deleted_key(server, local, k) {
                assert(after.contains_key(k) == mid.contains_key(k));
            }
        } else {
            let j = choose|j: int| 0 <= j < local.len() && #[trigger] local[j].spec_key() == k;
            if has_sync_key(server, local[j].sync_key()) {
                let i = choose|i: int| 0 <= i < server.len() && #[trigger] server[i].sync_key() == local[j].sync_key();
                assert(keep(server[i].spec_key()));
                assert(server[i].spec_key() == local[j].spec_key());
                assert(has_item_key(server, k));
            }
            assert(deleted_key(server, local, k));
        }
    }
    assert forall|i: int| 0 <= i < server.len() implies #[trigger] server[i].same_value(
        &after[server[i].spec_key()],
    ) by {
        lemma_deletions(mid, server, local, server[i].spec_key());
        assert(mid.contains_key(server[i].spec_key()));
        assert(has_item_key(server, server[i].spec_key()));
        if deleted_key(server, local, server[i].spec_key()) {
            assert(!has_item_key(server, server[i].spec_key()));
        }
    }
}

/// A merging sync (no deletions) stores each server item (or keeps a local
/// item of the same value under its key) and leaves every other key as it
/// was.
pub proof fn lemma_sync_merges<T: SyncItem + ListOrder>(
    m: Map<Key, T>,
    keep: spec_fn(Key) -> bool,
    server: Seq<T>,
    local: Seq<T>,
)
    requires
        lists_exactly(local, m, keep),
        sync_keyed::<T>(keep),
        same_value_reflexive::<T>(),
        forall|i: int| 0 <= i < server.len() ==> keep(#[trigger] server[i].spec_key()),
        distinct_sync_keys(server),
    ensures
        forall|k: Key|
            #![trigger merge_synced(m, server, local).contains_key(k)]
            !has_item_key(server, k) ==> (merge_synced(m, server, local).contains_key(k) == m.contains_key(k)),
        forall|k: Key|
            #![trigger merge_synced(m, server, local)[k]]
            !has_item_key(server, k) && m.contains_key(k) ==> merge_synced(m, server, local)[k] == m[k],
        forall|i: int|
            0 <= i < server.len() ==> merge_synced(m, server, local).contains_key(#[trigger] server[i].spec_key())
                && server[i].same_value(&merge_synced(m, server, local)[server[i].spec_key()]),
{
    let options = DiffOptions { skip_deletion: true, include_unchanged: true };
    lemma_server_actions(m, keep, server, local, options);
    assert(spec_diff(server, local, options) =~= server_actions(server, local, options));
}


/// Counting the actions of a plan split in two adds the counts of the parts.
proof fn lemma_count_concat<T>(a: Seq<SyncAction<T>>, b: Seq<SyncAction<T>>, st: SyncState)
    ensures
        count_state(a + b, st) == count_state(a, st) + count_state(b, st),
    decreases b.len(),
{
    if b.len() == 0 {
        assert(a + b =~= a);
    } else {
        assert((a + b).drop_last() =~= a + b.drop_last());
        assert((a + b).last() == b.last());
        lemma_count_concat(a, b.drop_last(), st);
    }
}

proof fn lemma_count_single<T>(x: SyncAction<T>, st: SyncState)
    ensures
        count_state(seq![x], st) == if x.spec_state() == st {
            1nat
        } else {
            0nat
        },
{
    assert(seq![x].drop_last() =~= Seq::<SyncAction<T>>::empty());
    assert(count_state(Seq::<SyncAction<T>>::empty(), st) == 0);
}

/// With unchanged items noticed, each server item gives one insert, update
/// or unchanged notice, and none a delete.
proof fn lemma_server_action_counts<T: SyncItem>(server: Seq<T>, local: Seq<T>, options: DiffOptions)
    requires
        options.include_unchanged,
    ensures
        count_state(server_actions(server, local, options), SyncState::Insert) + count_state(
            server_actions(server, local, options),
            SyncState::Update,
        ) + count_state(server_actions(server, local, options), SyncState::Unchanged) == server.len(),
        count_state(server_actions(server, local, options), SyncState::Delete) == 0,
    decreases server.len(),
{
    if server.len() > 0 {
        let rest = server_actions(server.drop_last(), local, options);
        let one = server_action(server.last(), local, options);
        lemma_server_action_counts(server.drop_last(), local, options);
        assert(server_actions(server, local, options) == rest + one);
        assert(one.len() == 1);
        assert(one =~= seq![one[0]]);
        lemma_count_single(one[0], SyncState::Insert);
        lemma_count_single(one[0], SyncState::Update);
        lemma_count_single(one[0], SyncState::Unchanged);
        lemma_count_single(one[0], SyncState::Delete);
        lemma_count_concat(rest, one, SyncState::Insert);
        lemma_count_concat(rest, one, SyncState::Update);
        lemma_count_concat(rest, one, SyncState::Unchanged);
        lemma_count_concat(rest, one, SyncState::Delete);
    }
}

/// A plan's deletions are all deletes, at most one per local item.
proof fn lemma_deletion_counts<T: SyncItem>(server: Seq<T>, local: Seq<T>)
    ensures
        count_state(deletions(server, local), SyncState::Insert) == 0,
        count_state(deletions(server, local), SyncState::Update) == 0,
        count_state(deletions(server, local), SyncState::Unchanged) == 0,
        count_state(deletions(server, local), SyncState::Delete) <= local.len(),
    decreases local.len(),
{
    if local.len() > 0 {
        let rest = deletions(server, local.drop_last());
        let tail = if has_sync_key(server, local.last().sync_key()) {
            Seq::<SyncAction<T>>::empty()
        } else {
            seq![SyncAction::Delete { local: local.last() }]
        };
        lemma_deletion_counts(server, local.drop_last());
        assert(deletions(server, local) == rest + tail);
        if tail.len() == 1 {
            lemma_count_single(tail[0], SyncState::Insert);
            lemma_count_single(tail[0], SyncState::Update);
            lemma_count_single(tail[0], SyncState::Unchanged);
            lemma_count_single(tail[0], SyncState::Delete);
            assert(tail =~= seq![tail[0]]);
        } else {
            assert(count_state(tail, SyncState::Insert) == 0);
            assert(count_state(tail, SyncState::Update) == 0);
            assert(count_state(tail, SyncState::Unchanged) == 0);
            assert(count_state(tail, SyncState::Delete) == 0);
        }
        lemma_count_concat(rest, tail, SyncState::Insert);
        lemma_count_concat(rest, tail, SyncState::Update);
        lemma_count_concat(rest, tail, SyncState::Unchanged);
        lemma_count_concat(rest, tail, SyncState::Delete);
    }
}

/// Sync count law: the summary of a full sync (deletions made, unchanged
/// items noticed) counts one insert, update or unchanged notice per server
/// item, and at most one delete per local item.
pub proof fn law_sync_summary_counts_server_items<T: SyncItem>(server: Seq<T>, local: Seq<T>)
    requires
        server.len() + local.len() <= usize::MAX,
    ensures
        ({
            let s = summary_of(spec_diff(server, local, DiffOptions { skip_deletion: false, include_unchanged: true }));
            &&& s.inserted + s.updated + s.unchanged == server.len()
            &&& s.deleted <= local.len()
        }),
{
    let options = DiffOptions { skip_deletion: false, include_unchanged: true };
    let sa = server_actions(server, local, options);
    let dl = deletions(server, local);
    assert(spec_diff(server, local, options) == sa + dl);
    lemma_server_action_counts(server, local, options);
    lemma_deletion_counts(server, local);
    lemma_count_concat(sa, dl, SyncState::Insert);
    lemma_count_concat(sa, dl, SyncState::Update);
    lemma_count_concat(sa, dl, SyncState::Unchanged);
    lemma_count_concat(sa, dl, SyncState::Delete);
}


/// With unchanged items noticed, the plan's server part has one action per
/// server item, the `i`-th being the action for the `i`-th item.
proof fn lemma_server_actions_indexed<T: SyncItem>(server: Seq<T>, local: Seq<T>, options: DiffOptions, i: int)
    requires
        options.include_unchanged,
        0 <= i < server.len(),
    ensures
        server_actions(server, local, options).len() == server.len(),
        server_action(server[i], local, options).len() == 1,
        server_actions(server, local, options)[i] == server_action(server[i], local, options)[0],
    decreases server.len(),
{
    let rest = server_actions(server.drop_last(), local, options);
    let one = server_action(server.last(), local, options);
    assert(server_actions(server, local, options) == rest + one);
    if server.len() > 1 {
        let k = if i < server.len() - 1 { i } else { 0 };
        lemma_server_actions_indexed(server.drop_last(), local, options, k);
        if i < server.len() - 1 {
            assert(server.drop_last()[i] == server[i]);
        }
    } else {
        assert(rest =~= Seq::<SyncAction<T>>::empty());
    }
}

/// The action for a server item against the local item with its key: an
/// unchanged notice when the values are the same, else an update.
pub open spec fn action_against<T: SyncItem>(s: T, l: T) -> SyncAction<T> {
    if s.same_value(&l) {
        SyncAction::Unchanged { server: s, local: l }
    } else {
        SyncAction::Update { server: s, local: l }
    }
}

/// The deletions of a plan, unless they are skipped.
pub open spec fn deletion_part<T: SyncItem>(server: Seq<T>, local: Seq<T>, options: DiffOptions) -> Seq<SyncAction<T>> {
    if options.skip_deletion {
        Seq::empty()
    } else {
        deletions(server, local)
    }
}

/// Diff law: with unchanged items noticed, the plan is one action per
/// server item, in server order (an insert when no local item has the
/// item's key; else, against the one local item with that key, an
/// unchanged notice when the values are the same and an update when they
/// differ), followed, unless deletions are skipped, by a delete for each
/// local item whose key no server item has, in local order.
pub proof fn law_diff_one_action_per_server_item<T: SyncItem>(
    server: Seq<T>,
    local: Seq<T>,
    options: DiffOptions,
    i: int,
)
    requires
        options.include_unchanged,
        distinct_sync_keys(local),
        0 <= i < server.len(),
    ensures
        spec_diff(server, local, options) == server_actions(server, local, options) + deletion_part(server, local, options),
        server_actions(server, local, options).len() == server.len(),
        !has_sync_key(local, server[i].sync_key()) ==> server_actions(server, local, options)[i]
            == (SyncAction::Insert { server: server[i] }),
        forall|j: int| 0 <= j < local.len() && #[trigger] local[j].sync_key() == server[i].sync_key()
            ==> server_actions(server, local, options)[i] == action_against(server[i], local[j]),
{
    lemma_server_actions_indexed(server, local, options, i);
    let k = server[i].sync_key();
    lemma_last_key_index(local, k);
    let idx = last_key_index(local, k);
    if idx >= 0 {
        assert(has_sync_key(local, k));
    }
    assert forall|j: int| 0 <= j < local.len() && #[trigger] local[j].sync_key() == server[i].sync_key() implies server_actions(
        server,
        local,
        options,
    )[i] == action_against(server[i], local[j]) by {
        assert(has_sync_key(local, k));
        assert(idx >= 0);
        if idx != j {
            assert(local[idx].sync_key() == local[j].sync_key());
        }
    }
}


/// Merge count law: a merging sync (deletions skipped) deletes nothing, and
/// counts one insert, update or unchanged notice per server item.
pub proof fn law_merge_sync_deletes_nothing<T: SyncItem>(server: Seq<T>, local: Seq<T>)
    requires
        server.len() <= usize::MAX,
    ensures
        ({
            let s = summary_of(spec_diff(server, local, DiffOptions { skip_deletion: true, include_unchanged: true }));
            &&& s.deleted == 0
            &&& s.inserted + s.updated + s.unchanged == server.len()
        }),
{
    let options = DiffOptions { skip_deletion: true, include_unchanged: true };
    let sa = server_actions(server, local, options);
    assert(spec_diff(server, local, options) =~= sa);
    lemma_server_action_counts(server, local, options);
}

} // verus!
