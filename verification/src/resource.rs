//! A pool that holds at most one value of each type.
//!
//! The pool is described by a map from the identity of a type to the value
//! stored for it. Values are kept with their type erased. The functions that
//! take a type's identity or an erased value say what they do to that map.
//! The generic functions go through them, with the identity of their type
//! parameter as the key.

use std::any::Any;
use std::any::TypeId;
use vstd::prelude::*;

verus! {

/// std's `TypeId`, of which the verifier knows nothing but that two of them
/// are equal or not.
#[verifier::external_type_specification]
#[verifier::external_body]
pub struct ExTypeId(TypeId);

/// A value of some type that is `Send` and `Sync`, boxed, with its type erased.
///
/// The verifier cannot describe `dyn Any`, so the box is hidden from it: a
/// resource is a value that can be moved, asked for the identity of its type,
/// and turned back into what it was made from.
#[verifier::external_body]
pub struct Resource {
    value: Box<dyn Any + Send + Sync>,
}

/// What a value looks like once its type is forgotten. Contracts use this
/// trait to speak of the value inside a resource; no code runs on it.
pub trait Stored {

}

impl<T: 'static> Stored for T {

}

/// `value` with its type forgotten.
pub open spec fn erased<T: 'static>(value: T) -> Box<dyn Stored> {
    Box::new(value)
}

/// The value that a resource holds, with its type forgotten: what the box
/// was made from.
pub uninterp spec fn resource_content(r: Resource) -> Box<dyn Stored>;

/// The identity of the type of a value whose type is forgotten: what
/// `Any::type_id` reports for it.
pub uninterp spec fn content_type(content: Box<dyn Stored>) -> TypeId;

/// The identity of the type of the value that a resource holds.
pub open spec fn resource_type(r: Resource) -> TypeId {
    content_type(resource_content(r))
}

/// The identity of the type `T`: that of every value of type `T`.
pub open spec fn key_of<T: 'static>() -> TypeId {
    content_type(erased(arbitrary::<T>()))
}

/// The resource holds `value`, a value of type `T`.
pub open spec fn holds<T: 'static>(r: Resource, value: T) -> bool {
    &&& resource_content(r) == erased(value)
    &&& resource_type(r) == key_of::<T>()
}

/// `out` is what comes of taking the value out of a resource as a `T`: the
/// value that the resource holds if that is a `T`, and nothing otherwise.
pub open spec fn unpacked<T: 'static>(r: Resource, out: Option<T>) -> bool {
    &&& out is Some <==> resource_type(r) == key_of::<T>()
    &&& out matches Some(value) ==> holds(r, value)
    &&& forall|other: T| #[trigger] holds(r, other) ==> out == Some(other)
}

/// What a look at a value shows.
pub open spec fn shown<T>(found: Option<&T>) -> Option<T> {
    match found {
        Some(value) => Some(*value),
        None => None,
    }
}

/// `TypeId::of`: the identity of the type `T`.
#[verifier::external_body]
fn type_id_of<T: 'static>() -> (id: TypeId)
    ensures
        id == key_of::<T>(),
{
    TypeId::of::<T>()
}

/// `==` on `TypeId`. It holds exactly when the two identities are the same.
#[verifier::external_body]
fn same_type(a: TypeId, b: TypeId) -> (same: bool)
    ensures
        same == (a == b),
{
    a == b
}

/// `Box::new`, with the box then taken as a `dyn Any`: a resource that holds
/// `value`.
#[verifier::external_body]
fn erase<T: 'static + Send + Sync>(value: T) -> (resource: Resource)
    ensures
        holds(resource, value),
{
    Resource { value: Box::new(value) }
}

/// `Any::type_id` on the boxed value: the identity of the type of what the
/// resource holds.
#[verifier::external_body]
fn dynamic_type(resource: &Resource) -> (id: TypeId)
    ensures
        id == content_type(resource_content(*resource)),
{
    (*resource.value).type_id()
}

/// `Box<dyn Any + Send + Sync>::downcast`: the value that the resource holds
/// comes back exactly if its type is `T`.
#[verifier::external_body]
fn downcast<T: 'static>(resource: Resource) -> (value: Option<T>)
    ensures
        unpacked(resource, value),
{
    resource.value.downcast::<T>().ok().map(|boxed| *boxed)
}

/// `<dyn Any>::downcast_ref`: a reference to the value that the resource
/// holds comes back exactly if its type is `T`.
#[verifier::external_body]
fn downcast_ref<T: 'static>(resource: &Resource) -> (value: Option<&T>)
    ensures
        unpacked(*resource, shown(value)),
{
    resource.value.downcast_ref::<T>()
}

/// `<dyn Any>::downcast_mut`: a reference to the value that the resource
/// holds comes back exactly if its type is `T`. Whatever is written through
/// it is what the resource then holds; where no reference comes back the
/// resource is untouched.
#[verifier::external_body]
fn downcast_mut<T: 'static>(resource: &mut Resource) -> (typed: Option<&mut T>)
    ensures
        typed is Some <==> resource_type(*old(resource)) == key_of::<T>(),
        typed matches Some(value) ==> holds(*old(resource), *value) && holds(
            *final(resource),
            *final(value),
        ),
        typed is None ==> *final(resource) == *old(resource),
{
    resource.value.downcast_mut::<T>()
}

impl Resource {
    /// Boxes `value` and forgets its type.
    pub fn new<T: 'static + Send + Sync>(value: T) -> (resource: Resource)
        ensures
            holds(resource, value),
    {
        erase(value)
    }

    /// The identity of the type of the value inside.
    pub fn type_id(&self) -> (id: TypeId)
        ensures
            id == resource_type(*self),
    {
        dynamic_type(self)
    }

    /// The value inside, if it is a `T`.
    pub fn into_inner<T: 'static>(self) -> (value: Option<T>)
        ensures
            unpacked(self, value),
    {
        downcast(self)
    }

    /// A look at the value inside, if it is a `T`.
    pub fn get<T: 'static>(&self) -> (value: Option<&T>)
        ensures
            unpacked(*self, shown(value)),
    {
        downcast_ref(self)
    }
}

/// The identity of a type, as the pool's key.
#[derive(Debug, Clone, Copy)]
pub struct Key {
    id: TypeId,
}

impl Key {
    /// The identity that this key stands for.
    pub closed spec fn view(&self) -> TypeId {
        self.id
    }

    /// The key of the type `T`.
    pub fn of<T: 'static>() -> (key: Key)
        ensures
            key@ == key_of::<T>(),
    {
        Key { id: type_id_of::<T>() }
    }

    /// The key for a given identity.
    pub fn from_id(id: TypeId) -> (key: Key)
        ensures
            key@ == id,
    {
        Key { id }
    }

    /// The identity that this key stands for.
    pub fn id(&self) -> (id: TypeId)
        ensures
            id == self@,
    {
        self.id
    }
}

/// One stored value with the key it is stored under.
struct Entry {
    key: TypeId,
    value: Resource,
}

/// No two entries share a key.
spec fn distinct_keys(entries: Seq<Entry>) -> bool {
    forall|i: int, j: int|
        0 <= i < j < entries.len() ==> (#[trigger] entries[i]).key != (#[trigger] entries[j]).key
}

/// Every entry sits under the identity of the type of its own value.
spec fn keyed_by_type(entries: Seq<Entry>) -> bool {
    forall|i: int|
        0 <= i < entries.len() ==> resource_type((#[trigger] entries[i]).value) == entries[i].key
}

/// Some entry has the key `id`.
spec fn has_key(entries: Seq<Entry>, id: TypeId) -> bool {
    exists|i: int| 0 <= i < entries.len() && (#[trigger] entries[i]).key == id
}

/// The place of an entry with the key `id`, where there is one.
spec fn place_of(entries: Seq<Entry>, id: TypeId) -> int {
    choose|i: int| 0 <= i < entries.len() && (#[trigger] entries[i]).key == id
}

/// The map that a list of entries stands for.
spec fn as_map(entries: Seq<Entry>) -> Map<TypeId, Resource> {
    Map::new(|id: TypeId| has_key(entries, id), |id: TypeId| entries[place_of(entries, id)].value)
}

/// With distinct keys, the entry at place `i` is the one found under its key.
proof fn lemma_entry_found(entries: Seq<Entry>, i: int)
    requires
        distinct_keys(entries),
        0 <= i < entries.len(),
    ensures
        has_key(entries, entries[i].key),
        place_of(entries, entries[i].key) == i,
        as_map(entries).contains_key(entries[i].key),
        as_map(entries)[entries[i].key] == entries[i].value,
{
    let id = entries[i].key;
    assert(has_key(entries, id));
    let p = place_of(entries, id);
    assert(0 <= p < entries.len() && entries[p].key == id);
    if p < i {
        assert(entries[p].key != entries[i].key);
    } else if i < p {
        assert(entries[i].key != entries[p].key);
    }
}

/// A key that no entry has is not in the map.
proof fn lemma_entry_missing(entries: Seq<Entry>, id: TypeId)
    requires
        forall|i: int| 0 <= i < entries.len() ==> (#[trigger] entries[i]).key != id,
    ensures
        !has_key(entries, id),
        !as_map(entries).contains_key(id),
{
}

/// Appending an entry under a new key adds that key to the map.
proof fn lemma_push_entry(entries: Seq<Entry>, entry: Entry)
    requires
        distinct_keys(entries),
        !has_key(entries, entry.key),
    ensures
        distinct_keys(entries.push(entry)),
        as_map(entries.push(entry)) == as_map(entries).insert(entry.key, entry.value),
{
    let after = entries.push(entry);
    let n = entries.len() as int;
    assert forall|a: int, b: int| 0 <= a < b < after.len() implies (#[trigger] after[a]).key != (
    #[trigger] after[b]).key by {
        assert(after[a] == entries[a]);
        if b < n {
            assert(after[b] == entries[b]);
        }
    }
    let want = as_map(entries).insert(entry.key, entry.value);
    assert forall|k: TypeId| as_map(after).contains_key(k) == want.contains_key(k) by {
        if as_map(after).contains_key(k) {
            let p = place_of(after, k);
            if p < n {
                assert(after[p] == entries[p]);
                lemma_entry_found(entries, p);
            }
        }
        if want.contains_key(k) {
            if k == entry.key {
                lemma_entry_found(after, n);
            } else {
                let p = place_of(entries, k);
                assert(after[p] == entries[p]);
                lemma_entry_found(after, p);
            }
        }
    }
    assert forall|k: TypeId| as_map(after).contains_key(k) implies as_map(after)[k] == want[k] by {
        let p = place_of(after, k);
        lemma_entry_found(after, p);
        if p < n {
            assert(after[p] == entries[p]);
            lemma_entry_found(entries, p);
        }
    }
    assert(as_map(after).dom() =~= want.dom());
    assert(as_map(after) =~= want);
}

/// Putting another value in the place of an entry, under the same key,
/// replaces what the map holds for that key.
proof fn lemma_replace_entry(entries: Seq<Entry>, i: int, entry: Entry)
    requires
        distinct_keys(entries),
        0 <= i < entries.len(),
        entries[i].key == entry.key,
    ensures
        distinct_keys(entries.update(i, entry)),
        as_map(entries.update(i, entry)) == as_map(entries).insert(entry.key, entry.value),
{
    let after = entries.update(i, entry);
    assert forall|a: int| 0 <= a < after.len() implies (#[trigger] after[a]).key
        == entries[a].key by {}
    assert forall|a: int, b: int| 0 <= a < b < after.len() implies (#[trigger] after[a]).key != (
    #[trigger] after[b]).key by {
        assert(entries[a].key != entries[b].key);
    }
    let want = as_map(entries).insert(entry.key, entry.value);
    assert forall|k: TypeId| as_map(after).contains_key(k) == want.contains_key(k) by {
        if as_map(after).contains_key(k) {
            let p = place_of(after, k);
            assert(entries[p].key == k);
            lemma_entry_found(entries, p);
        }
        if want.contains_key(k) {
            if k == entry.key {
                lemma_entry_found(after, i);
            } else {
                let p = place_of(entries, k);
                assert(after[p].key == k);
                lemma_entry_found(after, p);
            }
        }
    }
    assert forall|k: TypeId| as_map(after).contains_key(k) implies as_map(after)[k] == want[k] by {
        let p = place_of(after, k);
        lemma_entry_found(after, p);
        if p != i {
            assert(after[p] == entries[p]);
            lemma_entry_found(entries, p);
        }
    }
    assert(as_map(after).dom() =~= want.dom());
    assert(as_map(after) =~= want);
}

/// Moving the last entry into the place of another and dropping the last
/// place takes the other entry's key out of the map.
proof fn lemma_swap_remove_entry(entries: Seq<Entry>, i: int)
    requires
        distinct_keys(entries),
        0 <= i < entries.len(),
    ensures
        distinct_keys(entries.update(i, entries.last()).drop_last()),
        as_map(entries.update(i, entries.last()).drop_last()) == as_map(entries).remove(
            entries[i].key,
        ),
{
    let after = entries.update(i, entries.last()).drop_last();
    let last = entries.len() - 1;
    let from = |a: int| if a == i { last } else { a };
    assert forall|a: int| 0 <= a < after.len() implies (#[trigger] after[a]) == entries[from(a)] by {}
    assert forall|a: int, b: int| 0 <= a < b < after.len() implies (#[trigger] after[a]).key != (
    #[trigger] after[b]).key by {
        let pa = from(a);
        let pb = from(b);
        assert(after[a] == entries[pa]);
        assert(after[b] == entries[pb]);
        if pa < pb {
            assert(entries[pa].key != entries[pb].key);
        } else {
            assert(entries[pb].key != entries[pa].key);
        }
    }
    let gone = entries[i].key;
    let want = as_map(entries).remove(gone);
    lemma_entry_found(entries, i);
    assert forall|k: TypeId| as_map(after).contains_key(k) == want.contains_key(k) by {
        if as_map(after).contains_key(k) {
            let p = place_of(after, k);
            let q = from(p);
            assert(after[p] == entries[q]);
            lemma_entry_found(entries, q);
            if q < i {
                assert(entries[q].key != entries[i].key);
            } else {
                assert(entries[i].key != entries[q].key);
            }
        }
        if want.contains_key(k) {
            let q = place_of(entries, k);
            let p = if q == last { i } else { q };
            assert(after[p] == entries[q]);
            lemma_entry_found(after, p);
        }
    }
    assert forall|k: TypeId| as_map(after).contains_key(k) implies as_map(after)[k] == want[k] by {
        let p = place_of(after, k);
        let q = from(p);
        assert(after[p] == entries[q]);
        lemma_entry_found(after, p);
        lemma_entry_found(entries, q);
    }
    assert(as_map(after).dom() =~= want.dom());
    assert(as_map(after) =~= want);
}

/// Two maps hold the same value under every key of the first but `id`.
pub open spec fn same_but_at(
    before: Map<TypeId, Resource>,
    after: Map<TypeId, Resource>,
    id: TypeId,
) -> bool {
    forall|other: TypeId|
        other != id && before.contains_key(other) ==> after.contains_key(other) && #[trigger] after[other]
            == before[other]
}

/// Inserting two values of one type, one after the other, leaves the second
/// in the pool, and the second insertion finds the first there.
pub proof fn lemma_insert_replaces(pool: Map<TypeId, Resource>, first: Resource, second: Resource)
    requires
        resource_type(first) == resource_type(second),
    ensures
        ({
            let id = resource_type(first);
            let once = pool.insert(id, first);
            let twice = once.insert(resource_type(second), second);
            &&& once.contains_key(resource_type(second))
            &&& once[resource_type(second)] == first
            &&& twice.contains_key(id)
            &&& twice[id] == second
            &&& twice == pool.insert(id, second)
        }),
{
    let id = resource_type(first);
    assert(pool.insert(id, first).insert(id, second) =~= pool.insert(id, second));
}

/// What a pool holds, as contracts speak of it: for the identity of each
/// stored type, its value.
pub type PoolView = Map<TypeId, Resource>;

/// `out` is the pool's value of type `T`: the value held by the resource
/// under the identity of `T`, and nothing where the pool has no such
/// resource.
pub open spec fn typed<T: 'static>(pool: Map<TypeId, Resource>, out: Option<T>) -> bool {
    if pool.contains_key(key_of::<T>()) {
        out is Some && unpacked(pool[key_of::<T>()], out)
    } else {
        out is None
    }
}

/// Inserting two values of one type `T`, one after the other, leaves the
/// second as the pool's value of type `T`, and the second insertion finds
/// the first there.
pub proof fn lemma_typed_insert_replaces<T: 'static>(
    pool: Map<TypeId, Resource>,
    first: Resource,
    x: T,
    second: Resource,
    y: T,
    previous: Option<T>,
    found: Option<T>,
)
    requires
        holds(first, x),
        holds(second, y),
        typed(pool.insert(key_of::<T>(), first), previous),
        typed(pool.insert(key_of::<T>(), first).insert(key_of::<T>(), second), found),
    ensures
        previous == Some(x),
        found == Some(y),
{
}

/// A store that holds at most one value per type.
pub struct ResourcePool {
    entries: Vec<Entry>,
}

impl ResourcePool {
    /// What the pool holds: for the identity of each stored type, its value.
    pub closed spec fn view(&self) -> Map<TypeId, Resource> {
        as_map(self.entries@)
    }

    /// The invariant of the pool: one entry per type, each under the identity
    /// of the type of its own value.
    pub closed spec fn wf(&self) -> bool {
        &&& distinct_keys(self.entries@)
        &&& keyed_by_type(self.entries@)
    }

    /// In a well-formed pool every value is found under the identity of its
    /// own type.
    pub proof fn lemma_keyed_by_type(&self, id: TypeId)
        requires
            self.wf(),
            self@.contains_key(id),
        ensures
            resource_type(self@[id]) == id,
    {
        let p = place_of(self.entries@, id);
        assert(0 <= p < self.entries@.len() && self.entries@[p].key == id);
        lemma_entry_found(self.entries@, p);
    }

    /// An empty pool.
    pub fn new() -> (pool: Self)
        ensures
            pool.wf(),
            pool@ == Map::<TypeId, Resource>::empty(),
    {
        let pool = ResourcePool { entries: Vec::new() };
        assert(pool@ =~= Map::<TypeId, Resource>::empty());
        pool
    }

    /// Where the entry for `id` is, if there is one.
    fn position(&self, id: TypeId) -> (at: Option<usize>)
        ensures
            match at {
                Some(i) => i < self.entries@.len() && self.entries@[i as int].key == id,
                None => forall|i: int|
                    0 <= i < self.entries@.len() ==> (#[trigger] self.entries@[i]).key != id,
            },
    {
        let mut i: usize = 0;
        while i < self.entries.len()
            invariant
                i <= self.entries@.len(),
                forall|j: int| 0 <= j < i ==> (#[trigger] self.entries@[j]).key != id,
            decreases self.entries@.len() - i,
        {
            if same_type(self.entries[i].key, id) {
                return Some(i);
            }
            i += 1;
        }
        None
    }

    /// Whether a value is stored for the type with the identity `id`.
    pub fn contains_id(&self, id: TypeId) -> (found: bool)
        requires
            self.wf(),
        ensures
            found == self@.contains_key(id),
    {
        match self.position(id) {
            Some(i) => {
                proof {
                    lemma_entry_found(self.entries@, i as int);
                }
                true
            },
            None => {
                proof {
                    lemma_entry_missing(self.entries@, id);
                }
                false
            },
        }
    }

    /// Stores `resource` under the identity of its own type and hands back
    /// what was stored there before.
    pub fn insert_resource(&mut self, resource: Resource) -> (previous: Option<Resource>)
        requires
            old(self).wf(),
        ensures
            final(self).wf(),
            final(self)@ == old(self)@.insert(resource_type(resource), resource),
            previous == if old(self)@.contains_key(resource_type(resource)) {
                Some(old(self)@[resource_type(resource)])
            } else {
                None
            },
    {
        let id = dynamic_type(&resource);
        let ghost before = self.entries@;
        match self.position(id) {
            Some(i) => {
                let mut held = resource;
                std::mem::swap(&mut self.entries[i].value, &mut held);
                proof {
                    let entry = Entry { key: id, value: resource };
                    assert(self.entries@ =~= before.update(i as int, entry));
                    lemma_entry_found(before, i as int);
                    lemma_replace_entry(before, i as int, entry);
                }
                Some(held)
            },
            None => {
                let entry = Entry { key: id, value: resource };
                self.entries.push(entry);
                proof {
                    lemma_entry_missing(before, id);
                    lemma_push_entry(before, entry);
                }
                None
            },
        }
    }

    /// A look at the value stored for the type with the identity `id`.
    pub fn get_resource(&self, id: TypeId) -> (found: Option<&Resource>)
        requires
            self.wf(),
        ensures
            found == if self@.contains_key(id) {
                Some(&self@[id])
            } else {
                None
            },
    {
        match self.position(id) {
            Some(i) => {
                proof {
                    lemma_entry_found(self.entries@, i as int);
                }
                Some(&self.entries[i].value)
            },
            None => {
                proof {
                    lemma_entry_missing(self.entries@, id);
                }
                None
            },
        }
    }

    /// Takes the value stored for the type with the identity `id` out of the
    /// pool.
    pub fn remove_resource(&mut self, id: TypeId) -> (removed: Option<Resource>)
        requires
            old(self).wf(),
        ensures
            final(self).wf(),
            final(self)@ == old(self)@.remove(id),
            removed == if old(self)@.contains_key(id) {
                Some(old(self)@[id])
            } else {
                None
            },
    {
        let ghost before = self.entries@;
        match self.position(id) {
            Some(i) => {
                let entry = self.entries.swap_remove(i);
                proof {
                    lemma_entry_found(before, i as int);
                    lemma_swap_remove_entry(before, i as int);
                    let after = self.entries@;
                    assert forall|j: int| 0 <= j < after.len() implies resource_type(
                        (#[trigger] after[j]).value,
                    ) == after[j].key by {
                        assert(after[j] == before[if j == i { before.len() - 1 } else { j }]);
                    }
                }
                Some(entry.value)
            },
            None => {
                proof {
                    lemma_entry_missing(before, id);
                    assert(as_map(before) =~= as_map(before).remove(id));
                }
                None
            },
        }
    }
    /// A changeable look at the value stored for `id`. Whoever writes through
    /// it has to leave a value of the same type there.
    fn get_resource_mut(&mut self, id: TypeId) -> (found: Option<&mut Resource>)
        requires
            old(self).wf(),
        ensures
            match found {
                Some(resource) => {
                    &&& old(self)@.contains_key(id)
                    &&& *resource == old(self)@[id]
                    &&& resource_type(*final(resource)) == id ==> {
                        &&& final(self).wf()
                        &&& final(self)@ == old(self)@.insert(id, *final(resource))
                    }
                },
                None => !old(self)@.contains_key(id) && *final(self) == *old(self),
            },
    {
        let ghost before = self.entries@;
        match self.position(id) {
            Some(i) => {
                proof {
                    lemma_entry_found(before, i as int);
                }
                assert forall|entry: Entry| entry.key == id implies {
                    let after = #[trigger] before.update(i as int, entry);
                    &&& distinct_keys(after)
                    &&& as_map(after) == as_map(before).insert(id, entry.value)
                    &&& resource_type(entry.value) == id ==> keyed_by_type(after)
                } by {
                    let after = before.update(i as int, entry);
                    lemma_replace_entry(before, i as int, entry);
                    if resource_type(entry.value) == id {
                        assert forall|j: int| 0 <= j < after.len() implies resource_type(
                            (#[trigger] after[j]).value,
                        ) == after[j].key by {
                            if j != i {
                                assert(after[j] == before[j]);
                            }
                        }
                    }
                }
                Some(&mut self.entries[i].value)
            },
            None => {
                proof {
                    lemma_entry_missing(before, id);
                }
                None
            },
        }
    }

    /// Whether a value of type `T` is stored.
    pub fn contains<T: 'static>(&self) -> (found: bool)
        requires
            self.wf(),
        ensures
            found == self@.contains_key(key_of::<T>()),
    {
        let key = Key::of::<T>();
        self.contains_id(key.id)
    }

    /// Stores `value` as the pool's value of type `T` and hands back the one
    /// that it replaces.
    pub fn insert<T: 'static + Send + Sync>(&mut self, value: T) -> (previous: Option<T>)
        requires
            old(self).wf(),
        ensures
            final(self).wf(),
            final(self)@.contains_key(key_of::<T>()),
            holds(final(self)@[key_of::<T>()], value),
            final(self)@ == old(self)@.insert(key_of::<T>(), final(self)@[key_of::<T>()]),
            typed(old(self)@, previous),
    {
        let stored = erase(value);
        proof {
            if self@.contains_key(key_of::<T>()) {
                self.lemma_keyed_by_type(key_of::<T>());
            }
        }
        let previous = self.insert_resource(stored);
        match previous {
            Some(resource) => downcast(resource),
            None => None,
        }
    }

    /// A look at the stored value of type `T`.
    pub fn get<T: 'static>(&self) -> (found: Option<&T>)
        requires
            self.wf(),
        ensures
            typed(self@, shown(found)),
    {
        let key = Key::of::<T>();
        proof {
            if self@.contains_key(key_of::<T>()) {
                self.lemma_keyed_by_type(key_of::<T>());
            }
        }
        match self.get_resource(key.id) {
            Some(resource) => downcast_ref(resource),
            None => None,
        }
    }

    /// A copy of the stored value of type `T`.
    pub fn get_clone<T: 'static + Clone>(&self) -> (found: Option<T>)
        requires
            self.wf(),
        ensures
            found is Some <==> self@.contains_key(key_of::<T>()),
            forall|value: T|
                #[trigger] typed(self@, Some(value)) ==> found is Some && cloned(
                    value,
                    found->Some_0,
                ),
    {
        match self.get::<T>() {
            Some(value) => Some(value.clone()),
            None => None,
        }
    }

    /// A changeable look at the stored value of type `T`. What is written
    /// through it is what the pool then holds for `T`; nothing else in the
    /// pool changes.
    pub fn get_mut<T: 'static>(&mut self) -> (found: Option<&mut T>)
        requires
            old(self).wf(),
        ensures
            final(self).wf(),
            final(self)@.dom() == old(self)@.dom(),
            same_but_at(old(self)@, final(self)@, key_of::<T>()),
            found is Some <==> old(self)@.contains_key(key_of::<T>()),
            found matches Some(value) ==> holds(old(self)@[key_of::<T>()], *value) && holds(
                final(self)@[key_of::<T>()],
                *final(value),
            ),
            found is None ==> final(self)@ == old(self)@,
    {
        let key = Key::of::<T>();
        let id = key.id;
        let ghost before = self@;
        proof {
            assert(same_but_at(before, before, id));
            if before.contains_key(id) {
                self.lemma_keyed_by_type(id);
            }
            assert forall|value: Resource| before.contains_key(id) implies {
                let after = #[trigger] before.insert(id, value);
                after.dom() == before.dom() && same_but_at(before, after, id)
            } by {
                assert(before.insert(id, value).dom() =~= before.dom());
            }
        }
        match self.get_resource_mut(id) {
            Some(resource) => downcast_mut(resource),
            None => None,
        }
    }

    /// Takes the stored value of type `T` out of the pool.
    pub fn remove<T: 'static>(&mut self) -> (removed: Option<T>)
        requires
            old(self).wf(),
        ensures
            final(self).wf(),
            final(self)@ == old(self)@.remove(key_of::<T>()),
            typed(old(self)@, removed),
    {
        let key = Key::of::<T>();
        proof {
            if self@.contains_key(key_of::<T>()) {
                self.lemma_keyed_by_type(key_of::<T>());
            }
        }
        self.remove_with_key(&key)
    }

    /// Takes the value stored under `key` out of the pool and hands it back
    /// if it is a `T`.
    pub fn remove_with_key<T: 'static>(&mut self, key: &Key) -> (removed: Option<T>)
        requires
            old(self).wf(),
        ensures
            final(self).wf(),
            final(self)@ == old(self)@.remove(key@),
            if old(self)@.contains_key(key@) {
                unpacked(old(self)@[key@], removed)
            } else {
                removed is None
            },
    {
        match self.remove_resource(key.id) {
            Some(resource) => downcast(resource),
            None => None,
        }
    }
}

impl Default for ResourcePool {
    /// An empty pool.
    fn default() -> (pool: Self)
        ensures
            pool.wf(),
            pool@ == Map::<TypeId, Resource>::empty(),
    {
        ResourcePool::new()
    }
}

} // verus!
