//! Planning of list synchronization: the difference between the server's
//! list and the local one, and incremental version sync.
use vstd::prelude::*;

use crate::keyed::Duplicate;
use crate::text::str_eq;
use crate::types::VersionState;

verus! {

/// An item that takes part in a sync: it has a sync identifier and can be
/// compared with another item field by field.
pub trait SyncItem: Duplicate {
    spec fn sync_key(&self) -> Seq<char>;

    spec fn same_value(&self, other: &Self) -> bool;

    fn sync_id(&self) -> (r: String)
        ensures
            r@ == self.sync_key(),
    ;

    fn same_sync_key(&self, other: &Self) -> (r: bool)
        ensures
            r == (self.sync_key() == other.sync_key()),
    ;

    fn same(&self, other: &Self) -> (r: bool)
        ensures
            r == self.same_value(other),
    ;
}

/// What a planned action does to the local list.
#[derive(Debug, Clone, Copy, PartialEq, Eq, Structural)]
pub enum SyncState {
    Unchanged,
    Insert,
    Update,
    Delete,
}

/// One planned action.
#[derive(Debug, Clone, PartialEq, Eq)]
pub enum SyncAction<T> {
    Unchanged { server: T, local: T },
    Insert { server: T },
    Update { server: T, local: T },
    Delete { local: T },
}

impl<T> SyncAction<T> {
    pub open spec fn spec_state(&self) -> SyncState {
        match self {
            SyncAction::Unchanged { .. } => SyncState::Unchanged,
            SyncAction::Insert { .. } => SyncState::Insert,
            SyncAction::Update { .. } => SyncState::Update,
            SyncAction::Delete { .. } => SyncState::Delete,
        }
    }

    pub fn state(&self) -> (r: SyncState)
        ensures
            r == self.spec_state(),
    {
        match self {
            SyncAction::Unchanged { .. } => SyncState::Unchanged,
            SyncAction::Insert { .. } => SyncState::Insert,
            SyncAction::Update { .. } => SyncState::Update,
            SyncAction::Delete { .. } => SyncState::Delete,
        }
    }
}

/// The actions that bring the local list in line with the server's.
#[derive(Debug, Clone, PartialEq, Eq)]
pub struct SyncPlan<T> {
    pub actions: Vec<SyncAction<T>>,
}

pub open spec fn states_of<T>(actions: Seq<SyncAction<T>>) -> Seq<SyncState> {
    actions.map_values(|a: SyncAction<T>| a.spec_state())
}

impl<T> SyncPlan<T> {
    pub fn is_empty(&self) -> (r: bool)
        ensures
            r == (self.actions@.len() == 0),
    {
        self.actions.len() == 0
    }

    pub fn action_states(&self) -> (r: Vec<SyncState>)
        ensures
            r@ == states_of(self.actions@),
    {
        let mut r: Vec<SyncState> = Vec::new();
        let mut i: usize = 0;
        while i < self.actions.len()
            invariant
                i <= self.actions@.len(),
                r@ == states_of(self.actions@.take(i as int)),
            decreases self.actions.len() - i,
        {
            r.push(self.actions[i].state());
            assert(self.actions@.take(i + 1) =~= self.actions@.take(i as int).push(self.actions@[i as int]));
            assert(states_of(self.actions@.take(i + 1)) =~= states_of(self.actions@.take(i as int)).push(
                self.actions@[i as int].spec_state(),
            ));
            i = i + 1;
        }
        assert(self.actions@.take(i as int) =~= self.actions@);
        r
    }
}

/// Whether deletions are planned and unchanged items reported.
#[derive(Debug, Clone, Copy, PartialEq, Eq, Structural)]
pub struct DiffOptions {
    pub skip_deletion: bool,
    pub include_unchanged: bool,
}

impl Default for DiffOptions {
    fn default() -> (r: DiffOptions)
        ensures
            r == (DiffOptions { skip_deletion: false, include_unchanged: true }),
    {
        DiffOptions { skip_deletion: false, include_unchanged: true }
    }
}

/// Index of the last item of `local` with sync key `k`, or -1.
pub open spec fn last_key_index<T: SyncItem>(local: Seq<T>, k: Seq<char>) -> int
    decreases local.len(),
{
    if local.len() == 0 {
        -1
    } else if local.last().sync_key() == k {
        local.len() - 1
    } else {
        last_key_index(local.drop_last(), k)
    }
}

/// The action planned for one server item: an insert when no local item has
/// its key, otherwise an update when the last local item with that key
/// differs, or an unchanged notice (when asked for) when it is the same.
pub open spec fn server_action<T: SyncItem>(s: T, local: Seq<T>, options: DiffOptions) -> Seq<
    SyncAction<T>,
> {
    let idx = last_key_index(local, s.sync_key());
    if idx < 0 {
        seq![SyncAction::Insert { server: s }]
    } else if s.same_value(&local[idx]) {
        if options.include_unchanged {
            seq![SyncAction::Unchanged { server: s, local: local[idx] }]
        } else {
            Seq::empty()
        }
    } else {
        seq![SyncAction::Update { server: s, local: local[idx] }]
    }
}

/// The actions for the server items, in server order.
pub open spec fn server_actions<T: SyncItem>(server: Seq<T>, local: Seq<T>, options: DiffOptions) -> Seq<
    SyncAction<T>,
>
    decreases server.len(),
{
    if server.len() == 0 {
        Seq::empty()
    } else {
        server_actions(server.drop_last(), local, options) + server_action(
            server.last(),
            local,
            options,
        )
    }
}

/// Some item of `items` has sync key `k`.
pub open spec fn has_sync_key<T: SyncItem>(items: Seq<T>, k: Seq<char>) -> bool {
    exists|i: int| 0 <= i < items.len() && #[trigger] items[i].sync_key() == k
}

/// A delete for each local item whose key no server item has, in local order.
pub open spec fn deletions<T: SyncItem>(server: Seq<T>, local: Seq<T>) -> Seq<SyncAction<T>>
    decreases local.len(),
{
    if local.len() == 0 {
        Seq::empty()
    } else {
        deletions(server, local.drop_last()) + if has_sync_key(server, local.last().sync_key()) {
            Seq::empty()
        } else {
            seq![SyncAction::Delete { local: local.last() }]
        }
    }
}

/// The whole plan: server actions first, then deletions unless skipped.
pub open spec fn spec_diff<T: SyncItem>(server: Seq<T>, local: Seq<T>, options: DiffOptions) -> Seq<
    SyncAction<T>,
> {
    server_actions(server, local, options) + if options.skip_deletion {
        Seq::empty()
    } else {
        deletions(server, local)
    }
}

fn find_last_key<T: SyncItem>(local: &[T], s: &T) -> (r: Option<usize>)
    ensures
        r is None <==> last_key_index(local@, s.sync_key()) < 0,
        r matches Some(i) ==> i as int == last_key_index(local@, s.sync_key()) && i < local@.len(),
{
    let mut i: usize = local.len();
    assert(local@.take(i as int) =~= local@);
    while i > 0
        invariant
            i <= local@.len(),
            last_key_index(local@, s.sync_key()) == last_key_index(local@.take(i as int), s.sync_key()),
        decreases i,
    {
        assert(local@.take(i as int).drop_last() =~= local@.take(i - 1));
        if local[i - 1].same_sync_key(s) {
            return Some(i - 1);
        }
        i = i - 1;
    }
    None
}

fn has_key_in<T: SyncItem>(items: &[T], x: &T) -> (r: bool)
    ensures
        r == has_sync_key(items@, x.sync_key()),
{
    let mut i: usize = 0;
    while i < items.len()
        invariant
            i <= items@.len(),
            forall|j: int| 0 <= j < i ==> items@[j].sync_key() != x.sync_key(),
        decreases items.len() - i,
    {
        if items[i].same_sync_key(x) {
            return true;
        }
        i = i + 1;
    }
    false
}

/// Plans the actions that turn `local` into `server`: each server item is
/// an insert, an update or (when asked for) an unchanged notice, matched to
/// the last local item with its key; then, unless skipped, each local item
/// whose key the server lacks is a delete.
pub fn diff_by<T: SyncItem>(server: &[T], local: &[T], options: DiffOptions) -> (r: SyncPlan<T>)
    ensures
        r.actions@ == spec_diff(server@, local@, options),
{
    let mut actions: Vec<SyncAction<T>> = Vec::new();
    let mut i: usize = 0;
    assert(server@.take(0) =~= Seq::<T>::empty());
    while i < server.len()
        invariant
            i <= server@.len(),
            actions@ == server_actions(server@.take(i as int), local@, options),
        decreases server.len() - i,
    {
        let s = &server[i];
        let ghost before = actions@;
        match find_last_key(local, s) {
            None => {
                actions.push(SyncAction::Insert { server: s.duplicate() });
            },
            Some(j) => {
                if s.same(&local[j]) {
                    if options.include_unchanged {
                        actions.push(
                            SyncAction::Unchanged { server: s.duplicate(), local: local[j].duplicate() },
                        );
                    }
                } else {
                    actions.push(SyncAction::Update { server: s.duplicate(), local: local[j].duplicate() });
                }
            },
        }
        assert(server@.take(i + 1).drop_last() =~= server@.take(i as int));
        assert(actions@ =~= before + server_action(server@[i as int], local@, options));
        i = i + 1;
    }
    assert(server@.take(i as int) =~= server@);
    if !options.skip_deletion {
        let ghost head = actions@;
        let mut j: usize = 0;
        assert(local@.take(0) =~= Seq::<T>::empty());
        assert(actions@ =~= head + deletions(server@, local@.take(0)));
        while j < local.len()
            invariant
                j <= local@.len(),
                head == server_actions(server@, local@, options),
                actions@ == head + deletions(server@, local@.take(j as int)),
            decreases local.len() - j,
        {
            let ghost before = actions@;
            if !has_key_in(server, &local[j]) {
                actions.push(SyncAction::Delete { local: local[j].duplicate() });
            }
            assert(local@.take(j + 1).drop_last() =~= local@.take(j as int));
            assert(local@.take(j + 1).last() == local@[j as int]);
            assert(actions@ =~= head + deletions(server@, local@.take(j + 1)));
            j = j + 1;
        }
        assert(local@.take(j as int) =~= local@);
    } else {
        assert(actions@ =~= spec_diff(server@, local@, options));
    }
    SyncPlan { actions }
}

/// A server delta against a versioned list.
#[derive(Debug, Clone, PartialEq, Eq)]
pub struct VersionDelta<T> {
    pub version_id: String,
    pub version: u64,
    pub full: bool,
    pub delete_ids: Vec<String>,
    pub updates: Vec<T>,
    pub inserts: Vec<T>,
    pub id_order_changed: bool,
}

impl<T> VersionDelta<T> {
    pub open spec fn spec_has_changes(&self) -> bool {
        self.full || self.delete_ids@.len() > 0 || self.updates@.len() > 0 || self.inserts@.len() > 0
            || self.id_order_changed
    }

    pub fn has_changes(&self) -> (r: bool)
        ensures
            r == self.spec_has_changes(),
    {
        self.full || self.delete_ids.len() > 0 || self.updates.len() > 0 || self.inserts.len() > 0
            || self.id_order_changed
    }
}

/// What to do with a delta.
#[derive(Debug, Clone, PartialEq, Eq)]
pub enum VersionDecision<T> {
    Noop,
    Full,
    Incremental { server_items: Vec<T>, next_state: VersionState },
}

/// The contents of a list of strings.
pub open spec fn views(s: Seq<String>) -> Seq<Seq<char>> {
    s.map_values(|x: String| x@)
}

/// `ids` minus every id that occurs in `deletes`, order kept.
pub open spec fn without_ids(ids: Seq<Seq<char>>, deletes: Seq<Seq<char>>) -> Seq<Seq<char>>
    decreases ids.len(),
{
    if ids.len() == 0 {
        Seq::empty()
    } else {
        without_ids(ids.drop_last(), deletes) + if deletes.contains(ids.last()) {
            Seq::empty()
        } else {
            seq![ids.last()]
        }
    }
}

/// The local items by sync key; a later item wins.
pub open spec fn items_by_key<T: SyncItem>(items: Seq<T>) -> Map<Seq<char>, T>
    decreases items.len(),
{
    if items.len() == 0 {
        Map::empty()
    } else {
        items_by_key(items.drop_last()).insert(items.last().sync_key(), items.last())
    }
}

/// The map without the given keys.
pub open spec fn without_keys<T>(m: Map<Seq<char>, T>, ids: Seq<Seq<char>>) -> Map<Seq<char>, T> {
    m.restrict(m.dom().filter(|k: Seq<char>| !ids.contains(k)))
}

/// Applies changed items in order: a new id is appended to the id list,
/// and the item is stored under its id.
pub open spec fn apply_changes<T: SyncItem>(
    ids: Seq<Seq<char>>,
    m: Map<Seq<char>, T>,
    changes: Seq<T>,
) -> (Seq<Seq<char>>, Map<Seq<char>, T>)
    decreases changes.len(),
{
    if changes.len() == 0 {
        (ids, m)
    } else {
        let prev = apply_changes(ids, m, changes.drop_last());
        let c = changes.last();
        (
            if prev.0.contains(c.sync_key()) {
                prev.0
            } else {
                prev.0.push(c.sync_key())
            },
            prev.1.insert(c.sync_key(), c),
        )
    }
}

/// The items stored under the listed ids, in id order, skipping absent ids.
pub open spec fn present_items<T>(ids: Seq<Seq<char>>, m: Map<Seq<char>, T>) -> Seq<T>
    decreases ids.len(),
{
    if ids.len() == 0 {
        Seq::empty()
    } else {
        present_items(ids.drop_last(), m) + if m.contains_key(ids.last()) {
            seq![m[ids.last()]]
        } else {
            Seq::empty()
        }
    }
}

/// The id list after an incremental step.
pub open spec fn next_ids<T: SyncItem>(
    state: VersionState,
    local_items: Seq<T>,
    delta: VersionDelta<T>,
    refreshed: Option<Seq<Seq<char>>>,
) -> Seq<Seq<char>> {
    let deletes = views(delta.delete_ids@);
    let m1 = without_keys(items_by_key(local_items), deletes);
    let ids1 = without_ids(views(state.uid_list@), deletes);
    let applied = apply_changes(ids1, m1, delta.updates@ + delta.inserts@);
    if delta.id_order_changed && refreshed is Some {
        refreshed->0
    } else {
        applied.0
    }
}

/// The items of the list after an incremental step.
pub open spec fn next_items<T: SyncItem>(
    state: VersionState,
    local_items: Seq<T>,
    delta: VersionDelta<T>,
    refreshed: Option<Seq<Seq<char>>>,
) -> Seq<T> {
    let deletes = views(delta.delete_ids@);
    let m1 = without_keys(items_by_key(local_items), deletes);
    let ids1 = without_ids(views(state.uid_list@), deletes);
    let applied = apply_changes(ids1, m1, delta.updates@ + delta.inserts@);
    present_items(next_ids(state, local_items, delta, refreshed), applied.1)
}

/// The kind of decision a delta leads to: 0 no-op, 1 full sync, 2
/// incremental.
pub open spec fn decision_kind(state: VersionState, delta_has_changes: bool, full: bool, version_id: Seq<
    char,
>, version: u64) -> int {
    if !delta_has_changes {
        0
    } else if full || version_id != state.version_id@ {
        1
    } else if version <= state.version {
        0
    } else if version != state.version + 1 {
        1
    } else {
        2
    }
}

fn contains_id(ids: &Vec<String>, id: &String) -> (r: bool)
    ensures
        r == views(ids@).contains(id@),
{
    let mut i: usize = 0;
    while i < ids.len()
        invariant
            i <= ids@.len(),
            forall|j: int| 0 <= j < i ==> ids@[j]@ != id@,
        decreases ids.len() - i,
    {
        if ids[i].eq(id) {
            assert(views(ids@)[i as int] == id@);
            return true;
        }
        i = i + 1;
    }
    assert forall|j: int| 0 <= j < views(ids@).len() implies views(ids@)[j] != id@ by {
        assert(views(ids@)[j] == ids@[j]@);
    }
    false
}

fn copy_strings(ids: &Vec<String>) -> (r: Vec<String>)
    ensures
        views(r@) == views(ids@),
{
    let mut r: Vec<String> = Vec::new();
    let mut i: usize = 0;
    while i < ids.len()
        invariant
            i <= ids@.len(),
            views(r@) == views(ids@.take(i as int)),
            r@.len() == i,
        decreases ids.len() - i,
    {
        let c = ids[i].clone();
        assert(c@ == ids@[i as int]@);
        let ghost before = r@;
        r.push(c);
        assert(ids@.take(i + 1) =~= ids@.take(i as int).push(ids@[i as int]));
        assert(r@ == before.push(c));
        assert forall|j: int| 0 <= j < i + 1 implies #[trigger] views(r@)[j] == views(ids@.take(i + 1))[j] by {
            if j < i {
                assert(views(before)[j] == views(ids@.take(i as int))[j]);
                assert(before[j]@ == ids@.take(i as int)[j]@);
            }
        }
        assert(views(r@) =~= views(ids@.take(i + 1)));
        i = i + 1;
    }
    assert(ids@.take(i as int) =~= ids@);
    r
}

/// The position of the item with sync key `id` in a list of items with
/// distinct keys, if any.
fn find_item<T: SyncItem>(items: &Vec<T>, id: &String) -> (r: Option<usize>)
    ensures
        r matches Some(i) ==> i < items@.len() && items@[i as int].sync_key() == id@,
        r is None ==> forall|j: int| 0 <= j < items@.len() ==> items@[j].sync_key() != id@,
{
    let mut i: usize = 0;
    while i < items.len()
        invariant
            i <= items@.len(),
            forall|j: int| 0 <= j < i ==> items@[j].sync_key() != id@,
        decreases items.len() - i,
    {
        let k = items[i].sync_id();
        if k.eq(id) {
            return Some(i);
        }
        i = i + 1;
    }
    None
}

pub open spec fn sync_key_of<T: SyncItem>() -> spec_fn(T) -> Seq<char> {
    |t: T| t.sync_key()
}

/// A vector of items with distinct sync keys stands for `m`.
pub open spec fn holds_map<T: SyncItem>(items: Seq<T>, m: Map<Seq<char>, T>) -> bool {
    &&& crate::keyed::unique_keys(items, sync_key_of::<T>())
    &&& crate::keyed::seq_to_map(items, sync_key_of::<T>()) == m
}

proof fn lemma_items_by_key_is_seq_to_map<T: SyncItem>(items: Seq<T>)
    ensures
        items_by_key(items) == crate::keyed::seq_to_map(items, sync_key_of::<T>()),
    decreases items.len(),
{
    if items.len() > 0 {
        lemma_items_by_key_is_seq_to_map(items.drop_last());
    }
}

/// Stores `v` under its key in a vector standing for a map.
fn put_item<T: SyncItem>(items: &mut Vec<T>, v: T, Ghost(m): Ghost<Map<Seq<char>, T>>)
    requires
        holds_map(old(items)@, m),
    ensures
        holds_map(final(items)@, m.insert(v.sync_key(), v)),
{
    let id = v.sync_id();
    match find_item(items, &id) {
        Some(i) => {
            proof {
                crate::keyed::lemma_map_update(items@, sync_key_of::<T>(), i as int, v);
            }
            items.set(i, v);
        },
        None => {
            proof {
                assert(!crate::keyed::has_key(items@, sync_key_of::<T>(), v.sync_key()));
                crate::keyed::lemma_map_push(items@, sync_key_of::<T>(), v);
            }
            items.push(v);
        },
    }
}

/// Removes the item with sync key `id` from a vector standing for a map.
fn drop_item<T: SyncItem>(items: &mut Vec<T>, id: &String, Ghost(m): Ghost<Map<Seq<char>, T>>)
    requires
        holds_map(old(items)@, m),
    ensures
        holds_map(final(items)@, m.remove(id@)),
{
    match find_item(items, id) {
        Some(i) => {
            proof {
                crate::keyed::lemma_map_remove(items@, sync_key_of::<T>(), i as int);
            }
            items.remove(i);
        },
        None => {
            proof {
                crate::keyed::lemma_map_dom(items@, sync_key_of::<T>(), id@);
                assert(m.remove(id@) =~= m);
            }
        },
    }
}

/// Applies the change at position `at` of `changes` to the id list and the
/// items.
fn apply_change<T: SyncItem>(
    uid_list: &mut Vec<String>,
    items: &mut Vec<T>,
    item: &T,
    Ghost(ids1): Ghost<Seq<Seq<char>>>,
    Ghost(m1): Ghost<Map<Seq<char>, T>>,
    Ghost(changes): Ghost<Seq<T>>,
    Ghost(at): Ghost<int>,
)
    requires
        0 <= at < changes.len(),
        *item == changes[at],
        views(old(uid_list)@) == apply_changes(ids1, m1, changes.take(at)).0,
        holds_map(old(items)@, apply_changes(ids1, m1, changes.take(at)).1),
    ensures
        views(final(uid_list)@) == apply_changes(ids1, m1, changes.take(at + 1)).0,
        holds_map(final(items)@, apply_changes(ids1, m1, changes.take(at + 1)).1),
{
    assert(changes.take(at + 1).drop_last() =~= changes.take(at));
    let ghost prev = apply_changes(ids1, m1, changes.take(at));
    let id = item.sync_id();
    if !contains_id(uid_list, &id) {
        uid_list.push(id);
        assert(views(uid_list@) =~= prev.0.push(item.sync_key()));
    }
    put_item(items, item.duplicate(), Ghost(prev.1));
}

/// Decides how to apply a versioned delta. No changes, or a version not
/// newer than the local one, is a no-op; a full delta, another version id or
/// a version gap asks for a full sync; the next version is merged: deleted
/// ids leave the id list and the items, updated and inserted items replace
/// or join the items (new ids go to the end of the list), a refreshed id
/// order replaces the list when the delta says the order changed, and the
/// result lists the stored items in id order.
pub fn plan_version_sync<T: SyncItem>(
    local_state: &VersionState,
    local_items: &[T],
    delta: &VersionDelta<T>,
    refreshed_full_ids: Option<Vec<String>>,
) -> (r: VersionDecision<T>)
    ensures
        delta.full ==> r is Full,
        !delta.spec_has_changes() ==> r is Noop,
        decision_kind(
            *local_state,
            delta.spec_has_changes(),
            delta.full,
            delta.version_id@,
            delta.version,
        ) == 0 ==> r is Noop,
        decision_kind(
            *local_state,
            delta.spec_has_changes(),
            delta.full,
            delta.version_id@,
            delta.version,
        ) == 1 ==> r is Full,
        decision_kind(
            *local_state,
            delta.spec_has_changes(),
            delta.full,
            delta.version_id@,
            delta.version,
        ) == 2 ==> (r matches VersionDecision::Incremental { server_items, next_state } && {
            let refreshed = match refreshed_full_ids {
                Some(v) => Some(views(v@)),
                None => None,
            };
            &&& server_items@ == next_items(*local_state, local_items@, *delta, refreshed)
            &&& next_state.version_id@ == delta.version_id@
            &&& next_state.version == delta.version
            &&& views(next_state.uid_list@) == next_ids(*local_state, local_items@, *delta, refreshed)
        }),
{
    if !delta.has_changes() {
        return VersionDecision::Noop;
    }
    if delta.full || !delta.version_id.eq(&local_state.version_id) {
        return VersionDecision::Full;
    }
    if delta.version <= local_state.version {
        return VersionDecision::Noop;
    }
    if delta.version != local_state.version + 1 {
        return VersionDecision::Full;
    }
    let ghost refreshed = match &refreshed_full_ids {
        Some(v) => Some(views(v@)),
        None => None,
    };
    let ghost deletes = views(delta.delete_ids@);
    // Id list without the deleted ids.
    let mut uid_list: Vec<String> = Vec::new();
    let mut i: usize = 0;
    while i < local_state.uid_list.len()
        invariant
            i <= local_state.uid_list@.len(),
            deletes == views(delta.delete_ids@),
            views(uid_list@) == without_ids(views(local_state.uid_list@).take(i as int), deletes),
        decreases local_state.uid_list.len() - i,
    {
        let id = &local_state.uid_list[i];
        let ghost before = views(uid_list@);
        if !contains_id(&delta.delete_ids, id) {
            uid_list.push(id.clone());
        }
        assert(views(local_state.uid_list@).take(i + 1).drop_last() =~= views(local_state.uid_list@).take(
            i as int,
        ));
        assert(views(uid_list@) =~= without_ids(views(local_state.uid_list@).take(i + 1), deletes));
        i = i + 1;
    }
    assert(views(local_state.uid_list@).take(i as int) =~= views(local_state.uid_list@));
    // Items by key.
    let mut items: Vec<T> = Vec::new();
    let mut j: usize = 0;
    proof {
        assert(local_items@.take(0) =~= Seq::<T>::empty());
        lemma_items_by_key_is_seq_to_map(Seq::<T>::empty());
    }
    while j < local_items.len()
        invariant
            j <= local_items@.len(),
            holds_map(items@, items_by_key(local_items@.take(j as int))),
        decreases local_items.len() - j,
    {
        assert(local_items@.take(j + 1).drop_last() =~= local_items@.take(j as int));
        put_item(&mut items, local_items[j].duplicate(), Ghost(items_by_key(local_items@.take(j as int))));
        j = j + 1;
    }
    assert(local_items@.take(j as int) =~= local_items@);
    let ghost m0 = items_by_key(local_items@);
    assert(deletes.take(0) =~= Seq::<Seq<char>>::empty());
    assert(without_keys(m0, deletes.take(0)) =~= m0);
    // Remove deleted ids from the items.
    let mut d: usize = 0;
    while d < delta.delete_ids.len()
        invariant
            d <= delta.delete_ids@.len(),
            deletes == views(delta.delete_ids@),
            holds_map(items@, without_keys(m0, deletes.take(d as int))),
        decreases delta.delete_ids.len() - d,
    {
        let ghost before = without_keys(m0, deletes.take(d as int));
        drop_item(&mut items, &delta.delete_ids[d], Ghost(before));
        assert(before.remove(deletes[d as int]) =~= without_keys(m0, deletes.take(d + 1))) by {
            assert forall|k: Seq<char>| deletes.take(d + 1).contains(k) <==> (deletes.take(
                d as int,
            ).contains(k) || k == deletes[d as int]) by {
                if deletes.take(d + 1).contains(k) {
                    let x = choose|x: int| 0 <= x < d + 1 && #[trigger] deletes.take(d + 1)[x] == k;
                    if x < d {
                        assert(deletes.take(d as int)[x] == k);
                    }
                }
                if deletes.take(d as int).contains(k) {
                    let x = choose|x: int| 0 <= x < d && #[trigger] deletes.take(d as int)[x] == k;
                    assert(deletes.take(d + 1)[x] == k);
                }
                if k == deletes[d as int] {
                    assert(deletes.take(d + 1)[d as int] == k);
                }
            }
        }
        d = d + 1;
    }
    assert(deletes.take(d as int) =~= deletes);
    let ghost m1 = without_keys(m0, deletes);
    let ghost ids1 = views(uid_list@);
    // Apply updates, then inserts.
    let ghost changes = delta.updates@ + delta.inserts@;
    let mut c: usize = 0;
    assert(changes.take(0) =~= Seq::<T>::empty());
    while c < delta.updates.len()
        invariant
            changes == delta.updates@ + delta.inserts@,
            c <= delta.updates@.len(),
            ({
                let a = apply_changes(ids1, m1, changes.take(c as int));
                &&& views(uid_list@) == a.0
                &&& holds_map(items@, a.1)
            }),
        decreases delta.updates.len() - c,
    {
        let item = &delta.updates[c];
        assert(*item == changes[c as int]);
        apply_change(&mut uid_list, &mut items, item, Ghost(ids1), Ghost(m1), Ghost(changes), Ghost(c as int));
        c = c + 1;
    }
    let mut c2: usize = 0;
    while c2 < delta.inserts.len()
        invariant
            changes == delta.updates@ + delta.inserts@,
            c2 <= delta.inserts@.len(),
            ({
                let a = apply_changes(ids1, m1, changes.take(delta.updates@.len() + c2));
                &&& views(uid_list@) == a.0
                &&& holds_map(items@, a.1)
            }),
        decreases delta.inserts.len() - c2,
    {
        let item = &delta.inserts[c2];
        assert(*item == changes[delta.updates@.len() + c2]);
        apply_change(
            &mut uid_list,
            &mut items,
            item,
            Ghost(ids1),
            Ghost(m1),
            Ghost(changes),
            Ghost(delta.updates@.len() + c2),
        );
        c2 = c2 + 1;
    }
    assert(changes.take(delta.updates@.len() + c2) =~= changes);
    let ghost applied = apply_changes(ids1, m1, changes);
    if delta.id_order_changed {
        if let Some(ids) = refreshed_full_ids {
            uid_list = ids;
        }
    }
    let ghost final_ids = views(uid_list@);
    assert(final_ids == next_ids(*local_state, local_items@, *delta, refreshed));
    // Collect the present items in id order.
    let mut server_items: Vec<T> = Vec::new();
    let mut k: usize = 0;
    assert(final_ids.take(0) =~= Seq::<Seq<char>>::empty());
    while k < uid_list.len()
        invariant
            k <= uid_list@.len(),
            final_ids == views(uid_list@),
            holds_map(items@, applied.1),
            server_items@ == present_items(final_ids.take(k as int), applied.1),
        decreases uid_list.len() - k,
    {
        assert(final_ids.take(k + 1).drop_last() =~= final_ids.take(k as int));
        assert(final_ids[k as int] == uid_list@[k as int]@);
        match find_item(&items, &uid_list[k]) {
            Some(p) => {
                proof {
                    crate::keyed::lemma_map_value(items@, sync_key_of::<T>(), p as int);
                }
                server_items.push(items[p].duplicate());
            },
            None => {
                proof {
                    crate::keyed::lemma_map_dom(items@, sync_key_of::<T>(), final_ids[k as int]);
                }
            },
        }
        assert(server_items@ =~= present_items(final_ids.take(k + 1), applied.1));
        k = k + 1;
    }
    assert(final_ids.take(k as int) =~= final_ids);
    VersionDecision::Incremental {
        server_items,
        next_state: VersionState {
            version_id: delta.version_id.clone(),
            version: delta.version,
            uid_list,
        },
    }
}


/// Version sync law: a delta without changes does nothing; a full delta,
/// or one of another version id, asks for a full sync whatever its
/// version; on the same version id, an old version does nothing, the very
/// next version is applied incrementally, and a gap asks for a full sync.
pub proof fn law_version_decision<T>(state: VersionState, delta: VersionDelta<T>)
    ensures
        !delta.spec_has_changes() ==> decision_kind(state, delta.spec_has_changes(), delta.full, delta.version_id@, delta.version) == 0,
        delta.full ==> decision_kind(state, delta.spec_has_changes(), delta.full, delta.version_id@, delta.version) == 1,
        delta.spec_has_changes() && delta.version_id@ != state.version_id@ ==> decision_kind(state, delta.spec_has_changes(), delta.full, delta.version_id@, delta.version) == 1,
        delta.spec_has_changes() && !delta.full && delta.version_id@ == state.version_id@ && delta.version <= state.version
            ==> decision_kind(state, delta.spec_has_changes(), delta.full, delta.version_id@, delta.version) == 0,
        delta.spec_has_changes() && !delta.full && delta.version_id@ == state.version_id@ && delta.version == state.version + 1
            ==> decision_kind(state, delta.spec_has_changes(), delta.full, delta.version_id@, delta.version) == 2,
        delta.spec_has_changes() && !delta.full && delta.version_id@ == state.version_id@ && delta.version > state.version + 1
            ==> decision_kind(state, delta.spec_has_changes(), delta.full, delta.version_id@, delta.version) == 1,
{
}

} // verus!
