//! A component store that is one hash map: every component is filed under
//! its entity and its type. Entities are the plain numbers of
//! [`crate::entity_manager`].

use vstd::prelude::*;
use core::any::TypeId;
use core::hash::BuildHasherDefault;
use fxhash::FxHashMap;
use fxhash::FxHashSet;
use fxhash::FxHasher;
use vstd::std_specs::convert::IntoSpec;
use crate::component::erase;
use crate::component::same_type;
use crate::component::type_id_of;
use crate::component::ErasedValue;
use crate::entity_manager::Entity;

verus! {

/// The hasher of the `fxhash` crate. Opaque: it is only named in the types of
/// the maps below.
#[verifier::external_type_specification]
#[verifier::external_body]
pub struct ExFxHasher(FxHasher);

/// The standard library's builder of default hashers. Opaque, as above.
#[verifier::external_type_specification]
#[verifier::external_body]
#[verifier::reject_recursive_types(H)]
pub struct ExBuildHasherDefault<H>(BuildHasherDefault<H>);

/// What a component is filed under.
pub type ComponentKey = (Entity, TypeId);

/// `HashMap::insert` on an `FxHashMap`: afterwards the map holds `value`
/// under `key` and is otherwise as before. (A value that was there under
/// `key` is dropped.)
#[verifier::external_body]
fn store_insert(map: &mut FxHashMap<ComponentKey, ErasedValue>, key: ComponentKey, value: ErasedValue)
    ensures
        final(map)@ == old(map)@.insert(key, value),
{
    map.insert(key, value);
}

/// `HashMap::remove` on an `FxHashMap`: afterwards the map holds nothing
/// under `key` and is otherwise as before.
#[verifier::external_body]
fn store_remove(map: &mut FxHashMap<ComponentKey, ErasedValue>, key: &ComponentKey)
    ensures
        final(map)@ == old(map)@.remove(*key),
{
    map.remove(key);
}

/// `HashMap::keys` on an `FxHashMap`, collected: every key of the map once,
/// in no particular order.
#[verifier::external_body]
fn store_keys(map: &FxHashMap<ComponentKey, ErasedValue>) -> (keys: Vec<ComponentKey>)
    ensures
        keys@.no_duplicates(),
        forall|key: ComponentKey| keys@.contains(key) <==> map@.contains_key(key),
{
    map.keys().copied().collect()
}

/// `HashSet::insert` on an `FxHashSet`: afterwards the set holds `id` and is
/// otherwise as before.
#[verifier::external_body]
fn types_insert(set: &mut FxHashSet<TypeId>, id: TypeId)
    ensures
        final(set)@ == old(set)@.insert(id),
{
    set.insert(id);
}

/// `HashSet::iter` on an `FxHashSet`, collected: every element of the set
/// once, in no particular order.
#[verifier::external_body]
fn types_list(set: &FxHashSet<TypeId>) -> (ids: Vec<TypeId>)
    ensures
        ids@.no_duplicates(),
        forall|id: TypeId| ids@.contains(id) <==> set@.contains(id),
{
    set.iter().copied().collect()
}

/// `HashSet::len` on an `FxHashSet`: the number of elements.
#[verifier::external_body]
fn types_len(set: &FxHashSet<TypeId>) -> (n: usize)
    ensures
        n == set@.len(),
{
    set.len()
}

/// The keys of all components of type `id`.
pub open spec fn of_type(id: TypeId) -> Set<ComponentKey> {
    Set::new(|key: ComponentKey| key.1 == id)
}

/// The keys of all components of `entity`.
pub open spec fn of_entity(entity: Entity) -> Set<ComponentKey> {
    Set::new(|key: ComponentKey| key.0 == entity)
}

/// Whether `stored` holds a component of `entity`.
pub open spec fn holds_entity(stored: Map<ComponentKey, ErasedValue>, entity: Entity) -> bool {
    exists|id: TypeId| stored.contains_key((entity, id))
}

/// What adding `value` as the component of type `id` of `entity` makes of
/// `stored`: the component is added if `id` is among the registered types and
/// `entity` has no component of that type; otherwise nothing changes.
pub open spec fn added(
    stored: Map<ComponentKey, ErasedValue>,
    registered: Set<TypeId>,
    entity: Entity,
    id: TypeId,
    value: ErasedValue,
) -> Map<ComponentKey, ErasedValue> {
    if registered.contains(id) && !stored.contains_key((entity, id)) {
        stored.insert((entity, id), value)
    } else {
        stored
    }
}

/// The entities that `stored` holds a component of.
pub open spec fn entities_of(stored: Map<ComponentKey, ErasedValue>) -> Set<Entity> {
    Set::new(|entity: Entity| holds_entity(stored, entity))
}

/// Keeps the components of entities by their types, and the set of the types
/// that are registered: only a component of a registered type can be added.
pub struct ComponentManager {
    map: FxHashMap<ComponentKey, ErasedValue>,
    components: FxHashSet<TypeId>,
}

impl Default for ComponentManager {
    fn default() -> (manager: Self)
        ensures
            manager.stored() == Map::<ComponentKey, ErasedValue>::empty(),
            manager.registered() == Set::<TypeId>::empty(),
    {
        ComponentManager { map: FxHashMap::default(), components: FxHashSet::default() }
    }
}

impl ComponentManager {
    /// The components, by entity and type.
    pub closed spec fn stored(&self) -> Map<ComponentKey, ErasedValue> {
        self.map@
    }

    /// The registered component types.
    pub closed spec fn registered(&self) -> Set<TypeId> {
        self.components@
    }

    /// A manager without components and without registered types.
    pub fn new() -> (manager: Self)
        ensures
            manager.stored() == Map::<ComponentKey, ErasedValue>::empty(),
            manager.registered() == Set::<TypeId>::empty(),
    {
        ComponentManager { map: FxHashMap::default(), components: FxHashSet::default() }
    }

    /// Registers the component type `id`.
    pub fn register(&mut self, id: TypeId)
        ensures
            final(self).registered() == old(self).registered().insert(id),
            final(self).stored() == old(self).stored(),
    {
        types_insert(&mut self.components, id);
    }

    /// Whether the component type `id` is registered.
    pub fn contains_type(&self, id: &TypeId) -> (found: bool)
        ensures
            found == self.registered().contains(*id),
    {
        let ids = types_list(&self.components);
        let mut i: usize = 0;
        while i < ids.len() && !same_type(&ids[i], id)
            invariant
                i <= ids@.len(),
                forall|k: int| 0 <= k < i ==> ids@[k] != *id,
            decreases ids@.len() - i,
        {
            i = i + 1;
        }
        let found = i < ids.len();
        assert(found == ids@.contains(*id)) by {
            if found {
                assert(ids@[i as int] == *id);
            }
        }
        found
    }

    /// Whether `entity` has a component of type `id`.
    pub fn has(&self, entity: Entity, id: &TypeId) -> (found: bool)
        ensures
            found == self.stored().contains_key((entity, *id)),
    {
        let keys = store_keys(&self.map);
        let mut i: usize = 0;
        while i < keys.len() && !(keys[i].0 == entity && same_type(&keys[i].1, id))
            invariant
                i <= keys@.len(),
                forall|k: int| 0 <= k < i ==> keys@[k] != (entity, *id),
            decreases keys@.len() - i,
        {
            i = i + 1;
        }
        let found = i < keys.len();
        assert(found == keys@.contains((entity, *id))) by {
            if found {
                assert(keys@[i as int] == (entity, *id));
            }
        }
        found
    }

    /// Gives `entity` the component `value` of type `id`, if the type is
    /// registered and the entity has no component of it yet. Otherwise nothing
    /// changes, and `value` is dropped.
    pub fn add(&mut self, entity: Entity, id: TypeId, value: ErasedValue)
        ensures
            final(self).registered() == old(self).registered(),
            final(self).stored() == added(
                old(self).stored(),
                old(self).registered(),
                entity,
                id,
                value,
            ),
    {
        if self.contains_type(&id) && !self.has(entity, &id) {
            store_insert(&mut self.map, (entity, id), value);
        }
    }

    /// Takes the components of type `id` from every entity, if `entity` has
    /// any component at all. Otherwise nothing changes.
    pub fn remove_type(&mut self, entity: Entity, id: &TypeId)
        ensures
            final(self).registered() == old(self).registered(),
            final(self).stored() == if holds_entity(old(self).stored(), entity) {
                old(self).stored().remove_keys(of_type(*id))
            } else {
                old(self).stored()
            },
    {
        if self.contains_entity(entity) {
            let keys = store_keys(&self.map);
            let mut i: usize = 0;
            while i < keys.len()
                invariant
                    i <= keys@.len(),
                    self.components == old(self).components,
                    keys@.no_duplicates(),
                    forall|key: ComponentKey|
                        keys@.contains(key) <==> old(self).map@.contains_key(key),
                    forall|key: ComponentKey|
                        self.map@.contains_key(key) <==> old(self).map@.contains_key(key) && !(key.1
                            == *id && keys@.take(i as int).contains(key)),
                    forall|key: ComponentKey|
                        self.map@.contains_key(key) ==> self.map@[key] == old(self).map@[key],
                decreases keys@.len() - i,
            {
                if same_type(&keys[i].1, id) {
                    store_remove(&mut self.map, &keys[i]);
                }
                assert forall|key: ComponentKey|
                    self.map@.contains_key(key) <==> old(self).map@.contains_key(key) && !(key.1
                        == *id && keys@.take(i + 1).contains(key)) by {
                    lemma_take_contains(keys@, i as int, key);
                }
                i = i + 1;
            }
            assert(keys@.take(keys@.len() as int) =~= keys@);
            assert(self.map@ =~= old(self).map@.remove_keys(of_type(*id)));
        }
    }

    /// Takes every component from `entity`.
    pub fn remove_all(&mut self, entity: Entity)
        ensures
            final(self).registered() == old(self).registered(),
            final(self).stored() == old(self).stored().remove_keys(of_entity(entity)),
    {
        let keys = store_keys(&self.map);
        let mut i: usize = 0;
        while i < keys.len()
            invariant
                i <= keys@.len(),
                self.components == old(self).components,
                keys@.no_duplicates(),
                forall|key: ComponentKey| keys@.contains(key) <==> old(self).map@.contains_key(key),
                forall|key: ComponentKey|
                    self.map@.contains_key(key) <==> old(self).map@.contains_key(key) && !(key.0
                        == entity && keys@.take(i as int).contains(key)),
                forall|key: ComponentKey|
                    self.map@.contains_key(key) ==> self.map@[key] == old(self).map@[key],
            decreases keys@.len() - i,
        {
            if keys[i].0 == entity {
                store_remove(&mut self.map, &keys[i]);
            }
            assert forall|key: ComponentKey|
                self.map@.contains_key(key) <==> old(self).map@.contains_key(key) && !(key.0
                    == entity && keys@.take(i + 1).contains(key)) by {
                lemma_take_contains(keys@, i as int, key);
            }
            i = i + 1;
        }
        assert(keys@.take(keys@.len() as int) =~= keys@);
        assert(self.map@ =~= old(self).map@.remove_keys(of_entity(entity)));
    }

    /// Registers the component type `C`.
    pub fn register_component<C: 'static>(&mut self) -> (r: &mut Self)
        ensures
            exists|id: TypeId|
                r.registered() == #[trigger] old(self).registered().insert(id) && r.stored()
                    == old(self).stored(),
            *final(self) == *final(r),
    {
        self.register(type_id_of::<C>());
        self
    }

    /// Adds a component to a given entity, if its type is registered and the
    /// entity has no component of that type yet. Otherwise nothing changes.
    pub fn add_component_to_entity<C: 'static + Send + Sync>(
        &mut self,
        entity: Entity,
        component: C,
    ) -> (r: &mut Self)
        ensures
            r.registered() == old(self).registered(),
            exists|id: TypeId, value: ErasedValue|
                r.stored() == #[trigger] added(
                    old(self).stored(),
                    old(self).registered(),
                    entity,
                    id,
                    value,
                ),
            *final(self) == *final(r),
    {
        let id = type_id_of::<C>();
        let value = erase(component);
        let ghost given = value;
        self.add(entity, id, value);
        assert(self.stored() == added(
            old(self).stored(),
            old(self).registered(),
            entity,
            id,
            given,
        ));
        self
    }

    /// Removes the components of type `C`, from every entity, if `entity` has
    /// any component at all.
    pub fn remove_component_from_entity<C: 'static>(&mut self, entity: Entity) -> (r: &mut Self)
        ensures
            r.registered() == old(self).registered(),
            !holds_entity(old(self).stored(), entity) ==> r.stored() == old(self).stored(),
            holds_entity(old(self).stored(), entity) ==> exists|id: TypeId|
                r.stored() == old(self).stored().remove_keys(#[trigger] of_type(id)),
            *final(self) == *final(r),
    {
        let id = type_id_of::<C>();
        self.remove_type(entity, &id);
        self
    }

    /// Whether `entity` has a component of type `C`.
    pub fn has_component<C: 'static>(&mut self, entity: Entity) -> (found: bool)
        ensures
            *final(self) == *old(self),
            exists|id: TypeId| found == #[trigger] old(self).stored().contains_key((entity, id)),
    {
        let id = type_id_of::<C>();
        self.has(entity, &id)
    }

    /// Removes all components associated with the entity.
    pub fn remove_entity<I: Into<Entity>>(&mut self, entity: I) -> (r: &mut Self)
        ensures
            r.registered() == old(self).registered(),
            exists|which: Entity|
                {
                    &&& I::obeys_into_spec() ==> which == entity.into_spec()
                    &&& r.stored() == old(self).stored().remove_keys(#[trigger] of_entity(which))
                },
            *final(self) == *final(r),
    {
        let which: Entity = entity.into();
        self.remove_all(which);
        self
    }

    /// Whether `entity` has any component.
    pub fn contains_entity(&self, entity: Entity) -> (found: bool)
        ensures
            found == holds_entity(self.stored(), entity),
    {
        let keys = store_keys(&self.map);
        let mut i: usize = 0;
        while i < keys.len() && !(keys[i].0 == entity)
            invariant
                i <= keys@.len(),
                forall|k: int| 0 <= k < i ==> keys@[k].0 != entity,
            decreases keys@.len() - i,
        {
            i = i + 1;
        }
        let found = i < keys.len();
        assert(found == holds_entity(self.map@, entity)) by {
            if found {
                assert(keys@.contains(keys@[i as int]));
                assert(self.map@.contains_key((entity, keys@[i as int].1)));
            } else if holds_entity(self.map@, entity) {
                let id = choose|id: TypeId| self.map@.contains_key((entity, id));
                assert(keys@.contains((entity, id)));
            }
        }
        found
    }

    /// Whether the component type `C` is registered.
    pub fn contain_component<C: 'static>(&self) -> (found: bool)
        ensures
            exists|id: TypeId| found == #[trigger] self.registered().contains(id),
    {
        let id = type_id_of::<C>();
        self.contains_type(&id)
    }

    /// The number of registered component types.
    pub fn len_of_component(&self) -> (n: usize)
        ensures
            n == self.registered().len(),
    {
        types_len(&self.components)
    }

    /// The registered component types, each once, in no particular order.
    pub fn registered_components(&self) -> (ids: Vec<TypeId>)
        ensures
            ids@.no_duplicates(),
            forall|id: TypeId| ids@.contains(id) <==> self.registered().contains(id),
    {
        types_list(&self.components)
    }

    /// The types of the components of `entity`, each once, in no particular
    /// order.
    pub fn components_of_entity(&self, entity: Entity) -> (ids: Vec<TypeId>)
        ensures
            ids@.no_duplicates(),
            forall|id: TypeId| ids@.contains(id) <==> self.stored().contains_key((entity, id)),
    {
        let keys = store_keys(&self.map);
        let mut ids: Vec<TypeId> = Vec::new();
        let mut i: usize = 0;
        while i < keys.len()
            invariant
                i <= keys@.len(),
                keys@.no_duplicates(),
                forall|key: ComponentKey| keys@.contains(key) <==> self.map@.contains_key(key),
                ids@.no_duplicates(),
                forall|id: TypeId|
                    ids@.contains(id) <==> keys@.take(i as int).contains((entity, id)),
            decreases keys@.len() - i,
        {
            let ghost before = ids@;
            if keys[i].0 == entity {
                let id = keys[i].1;
                assert(!before.contains(id)) by {
                    if before.contains(id) {
                        let j = choose|j: int|
                            0 <= j < keys@.take(i as int).len() && keys@.take(i as int)[j] == (
                                entity,
                                id,
                            );
                        assert(keys@[j] == keys@[i as int]);
                    }
                }
                ids.push(id);
                assert forall|a: int, b: int|
                    0 <= a < ids@.len() && 0 <= b < ids@.len() && a != b implies ids@[a] != ids@[b] by {
                    if a < before.len() && b < before.len() {
                        assert(before[a] != before[b]);
                    } else if a < before.len() {
                        assert(before.contains(before[a]));
                    } else {
                        assert(before.contains(before[b]));
                    }
                }
            }
            assert forall|id: TypeId|
                ids@.contains(id) <==> keys@.take(i + 1).contains((entity, id)) by {
                lemma_take_contains(keys@, i as int, (entity, id));
                if keys@[i as int].0 == entity {
                    if ids@.contains(id) {
                        let j = choose|j: int| 0 <= j < ids@.len() && ids@[j] == id;
                        if j < before.len() {
                            assert(before.contains(id));
                        }
                    }
                    if before.contains(id) {
                        let j = choose|j: int| 0 <= j < before.len() && before[j] == id;
                        assert(ids@[j] == id);
                    }
                    if keys@[i as int] == (entity, id) {
                        assert(ids@[before.len() as int] == id);
                    }
                }
            }
            i = i + 1;
        }
        assert(keys@.take(keys@.len() as int) =~= keys@);
        ids
    }

    /// The number of entities that have a component.
    pub fn num_entities_with_components(&self) -> (n: usize)
        ensures
            n == entities_of(self.stored()).len(),
    {
        let keys = store_keys(&self.map);
        let mut seen: Vec<Entity> = Vec::new();
        let mut i: usize = 0;
        while i < keys.len()
            invariant
                i <= keys@.len(),
                seen@.len() <= i,
                seen@.no_duplicates(),
                forall|entity: Entity|
                    seen@.contains(entity) <==> exists|j: int|
                        0 <= j < i && (#[trigger] keys@[j]).0 == entity,
            decreases keys@.len() - i,
        {
            let entity = keys[i].0;
            let ghost before = seen@;
            let mut k: usize = 0;
            while k < seen.len() && !(seen[k] == entity)
                invariant
                    k <= seen@.len(),
                    forall|j: int| 0 <= j < k ==> seen@[j] != entity,
                decreases seen@.len() - k,
            {
                k = k + 1;
            }
            if k == seen.len() {
                seen.push(entity);
                assert forall|a: int, b: int|
                    0 <= a < seen@.len() && 0 <= b < seen@.len() && a != b implies seen@[a]
                    != seen@[b] by {
                    if a < before.len() && b < before.len() {
                        assert(before[a] != before[b]);
                    }
                }
            }
            assert forall|other: Entity|
                seen@.contains(other) <==> exists|j: int|
                    0 <= j < i + 1 && (#[trigger] keys@[j]).0 == other by {
                if seen@.contains(other) {
                    let at = choose|at: int| 0 <= at < seen@.len() && seen@[at] == other;
                    if at < before.len() {
                        assert(before.contains(other));
                    } else {
                        assert(keys@[i as int].0 == other);
                    }
                }
                if exists|j: int| 0 <= j < i + 1 && (#[trigger] keys@[j]).0 == other {
                    let j = choose|j: int| 0 <= j < i + 1 && (#[trigger] keys@[j]).0 == other;
                    if j < i {
                        assert(before.contains(other));
                        let at = choose|at: int| 0 <= at < before.len() && before[at] == other;
                        assert(seen@[at] == other);
                    } else if k < before.len() {
                        assert(seen@[k as int] == other);
                    } else {
                        assert(seen@[before.len() as int] == other);
                    }
                }
            }
            i = i + 1;
        }
        proof {
            assert(seen@.to_set() =~= entities_of(self.map@)) by {
                assert forall|entity: Entity|
                    seen@.to_set().contains(entity) <==> entities_of(self.map@).contains(
                        entity,
                    ) by {
                    if seen@.contains(entity) {
                        let j = choose|j: int|
                            0 <= j < keys@.len() && (#[trigger] keys@[j]).0 == entity;
                        assert(keys@.contains(keys@[j]));
                        assert(self.map@.contains_key((entity, keys@[j].1)));
                    }
                    if holds_entity(self.map@, entity) {
                        let id = choose|id: TypeId| self.map@.contains_key((entity, id));
                        assert(keys@.contains((entity, id)));
                        let j = choose|j: int| 0 <= j < keys@.len() && keys@[j] == (entity, id);
                        assert(keys@[j].0 == entity);
                    }
                }
            }
            seen@.unique_seq_to_set();
        }
        seen.len()
    }
}

/// What the first `n + 1` elements of a list hold: what the first `n` hold,
/// and the element with index `n`.
proof fn lemma_take_contains<A>(list: Seq<A>, n: int, item: A)
    requires
        0 <= n < list.len(),
    ensures
        list.take(n + 1).contains(item) <==> (list.take(n).contains(item) || list[n] == item),
{
    let more = list.take(n + 1);
    let fewer = list.take(n);
    if more.contains(item) {
        let j = choose|j: int| 0 <= j < more.len() && more[j] == item;
        if j < n {
            assert(fewer[j] == item);
        }
    }
    if fewer.contains(item) {
        let j = choose|j: int| 0 <= j < fewer.len() && fewer[j] == item;
        assert(more[j] == item);
    }
    if list[n] == item {
        assert(more[n] == item);
    }
}

} // verus!
