//! Queries: shared access to the components of every entity that has all of
//! a list of component types.

use vstd::prelude::*;
use vstd::std_specs::slice::into_iter_elts;
use crate::component::downcast_ref;
use crate::component::ComponentId;
use crate::entity::EntityId;
use crate::entity::EntityLocation;
use crate::error::FetchError;
use crate::model::WorldView;
use crate::wellformed::lemma_rows_bounded;
use crate::world::World;

verus! {

/// The items a query found, in the order in which it found them.
pub struct Query<C>(Vec<Box<C>>);

impl<C> View for Query<C> {
    type V = Seq<C>;

    closed spec fn view(&self) -> Seq<C> {
        Seq::new(self.0@.len(), |i: int| *self.0@[i])
    }
}

impl<C> Query<C> {
    /// A query result that holds `components`, in their order.
    pub fn new(components: Vec<C>) -> (query: Self)
        ensures
            query@ == components@,
    {
        let mut query = Query(Vec::new());
        assert(query@ =~= Seq::<C>::empty());
        query.add(components);
        assert(query@ =~= components@);
        query
    }

    /// Appends `components`, in their order.
    pub fn add(&mut self, components: Vec<C>)
        ensures
            final(self)@ == old(self)@ + components@,
    {
        let mut components = components;
        let ghost all = components@;
        let ghost start = self.0@.len();
        // Take the items from the end, then put them in order.
        let mut reversed: Vec<Box<C>> = Vec::new();
        while components.len() > 0
            invariant
                components@.len() + reversed@.len() == all.len(),
                components@ == all.take(components@.len() as int),
                forall|i: int|
                    0 <= i < reversed@.len() ==> *(#[trigger] reversed@[i]) == all[all.len() - 1
                        - i],
            decreases components@.len(),
        {
            let component = components.pop().unwrap();
            assert(components@ =~= all.take(components@.len() as int));
            reversed.push(Box::new(component));
        }
        while reversed.len() > 0
            invariant
                self.0@.len() + reversed@.len() == start + all.len(),
                self.0@.len() >= start,
                forall|i: int| 0 <= i < start ==> self.0@[i] == old(self).0@[i],
                forall|i: int|
                    start <= i < self.0@.len() ==> *(#[trigger] self.0@[i]) == all[i - start],
                forall|i: int|
                    0 <= i < reversed@.len() ==> *(#[trigger] reversed@[i]) == all[all.len() - 1
                        - i],
            decreases reversed@.len(),
        {
            let boxed = reversed.pop().unwrap();
            self.0.push(boxed);
        }
        assert(self@ =~= old(self)@ + all);
    }

    /// The number of items.
    pub fn len(&self) -> (n: usize)
        ensures
            n == self@.len(),
    {
        self.0.len()
    }

    /// The item with index `index`.
    pub fn get(&self, index: usize) -> (item: &C)
        requires
            index < self@.len(),
        ensures
            *item == self@[index as int],
    {
        &*self.0[index]
    }

    /// The items, boxed as they are stored.
    pub fn items(&self) -> (items: &Vec<Box<C>>)
        ensures
            items@.len() == self@.len(),
            forall|i: int| 0 <= i < items@.len() ==> *(#[trigger] items@[i]) == self@[i],
    {
        &self.0
    }

    /// An iterator over the items: it goes through them in their order, each
    /// boxed as it is stored.
    pub fn iter(&self) -> (iter: core::slice::Iter<'_, Box<C>>)
        ensures
            into_iter_elts(iter).len() == self@.len(),
            forall|i: int|
                0 <= i < self@.len() ==> *(#[trigger] into_iter_elts(iter)[i]) == self@[i],
    {
        self.0.iter()
    }
}

impl WorldView {
    /// Whether archetype `a` has a column for each of the component types
    /// `keys`.
    pub open spec fn has_all(self, a: int, keys: Seq<ComponentId>) -> bool {
        forall|k: int| 0 <= k < keys.len() ==> self.archetypes[a].has(#[trigger] keys[k])
    }

    /// The rows of the first `upto` archetypes that have a column for each of
    /// `keys`: archetype by archetype, and in each of them row by row.
    pub open spec fn rows_with(self, keys: Seq<ComponentId>, upto: int) -> Seq<EntityLocation>
        decreases upto,
    {
        if upto <= 0 {
            Seq::empty()
        } else if self.has_all(upto - 1, keys) {
            self.rows_with(keys, upto - 1) + rows_of(upto - 1, self.archetypes[upto - 1].rows())
        } else {
            self.rows_with(keys, upto - 1)
        }
    }

    /// Every row that `rows_with` lists is a row of an archetype that has a
    /// column for each of `keys`.
    pub proof fn lemma_rows_with(self, keys: Seq<ComponentId>, upto: int)
        requires
            self.wf(),
            upto <= self.archetypes.len(),
        ensures
            forall|i: int|
                0 <= i < self.rows_with(keys, upto).len() ==> {
                    let location = #[trigger] self.rows_with(keys, upto)[i];
                    &&& location.archetype_index < upto
                    &&& location.index_in_archetype
                        < self.archetypes[location.archetype_index as int].rows()
                    &&& self.has_all(location.archetype_index as int, keys)
                },
        decreases upto,
    {
        if upto > 0 {
            self.lemma_rows_with(keys, upto - 1);
            lemma_rows_bounded(self, upto - 1);
            let before = self.rows_with(keys, upto - 1);
            let rows = self.rows_with(keys, upto);
            assert forall|i: int| 0 <= i < rows.len() implies ({
                let location = #[trigger] rows[i];
                &&& location.archetype_index < upto
                &&& location.index_in_archetype
                    < self.archetypes[location.archetype_index as int].rows()
                &&& self.has_all(location.archetype_index as int, keys)
            }) by {
                if i < before.len() {
                    assert(rows[i] == before[i]);
                } else {
                    assert(rows[i] == rows_of(upto - 1, self.archetypes[upto - 1].rows())[i
                        - before.len()]);
                }
            }
        }
    }
}

/// The first `count` rows of archetype `a`, as locations.
pub open spec fn rows_of(a: int, count: nat) -> Seq<EntityLocation> {
    Seq::new(
        count,
        |row: int| EntityLocation { archetype_index: a as EntityId, index_in_archetype: row as EntityId },
    )
}

/// The items of `found` that are there, in their order.
pub open spec fn kept<T>(found: Seq<Option<T>>) -> Seq<T>
    decreases found.len(),
{
    if found.len() == 0 {
        Seq::empty()
    } else if found.last() is Some {
        kept(found.drop_last()).push(found.last()->0)
    } else {
        kept(found.drop_last())
    }
}

/// Component types that can be asked for together: tuples of shared
/// references to components.
pub trait QueryParameters<'w>: Sized {
    /// The number of component types in the tuple.
    spec fn arity() -> nat;

    /// The rows of the archetypes that have a column for each component type
    /// of the tuple are gone through in the order of [`World::rows_with`]. Each
    /// row gives an item if every one of its parts is a component of the type
    /// asked for, and nothing otherwise; the query holds the items that were
    /// given, in that order. It holds none if the world has not met one of the
    /// types.
    fn fetch(world: &'w World) -> (r: Result<Query<Self>, FetchError>)
        requires
            world.wf(),
        ensures
            r is Ok,
            r matches Ok(query) ==> exists|found: Seq<Option<Self>>|
                {
                    &&& query@ == #[trigger] kept(found)
                    &&& found.len() == 0 || exists|keys: Seq<ComponentId>|
                        keys.len() == Self::arity() && found.len() == (#[trigger] world@.rows_with(
                            keys,
                            world@.archetypes.len() as int,
                        )).len()
                },
    ;
}

/// The item that a row with this part gives: the tuple of the parts if
/// it is there, and nothing otherwise.
pub open spec fn every1<A>(a: Option<A>) -> Option<(A,)> {
    match a {
        Some(a) => Some((a,)),
        None => None,
    }
}

/// Decides whether a row is kept: it is if its part is there.
pub fn keep1<A>(a: Option<A>) -> (item: Option<(A,)>)
    ensures
        item == every1(a),
{
    match a {
        Some(a) => Some((a,)),
        None => None,
    }
}

/// The item that a row with these two parts gives: the tuple of the parts if
/// all of them are there, and nothing otherwise.
pub open spec fn every2<A, B>(a: Option<A>, b: Option<B>) -> Option<(A, B)> {
    match (a, b) {
        (Some(a), Some(b)) => Some((a, b)),
        _ => None,
    }
}

/// Decides whether a row is kept: it is if each of its two parts is there.
pub fn keep2<A, B>(a: Option<A>, b: Option<B>) -> (item: Option<(A, B)>)
    ensures
        item == every2(a, b),
{
    match (a, b) {
        (Some(a), Some(b)) => Some((a, b)),
        _ => None,
    }
}

/// The item that a row with these three parts gives: the tuple of the parts if
/// all of them are there, and nothing otherwise.
pub open spec fn every3<A, B, C>(a: Option<A>, b: Option<B>, c: Option<C>) -> Option<(A, B, C)> {
    match (a, b, c) {
        (Some(a), Some(b), Some(c)) => Some((a, b, c)),
        _ => None,
    }
}

/// Decides whether a row is kept: it is if each of its three parts is there.
pub fn keep3<A, B, C>(a: Option<A>, b: Option<B>, c: Option<C>) -> (item: Option<(A, B, C)>)
    ensures
        item == every3(a, b, c),
{
    match (a, b, c) {
        (Some(a), Some(b), Some(c)) => Some((a, b, c)),
        _ => None,
    }
}

/// The item that a row with these four parts gives: the tuple of the parts if
/// all of them are there, and nothing otherwise.
pub open spec fn every4<A, B, C, D>(a: Option<A>, b: Option<B>, c: Option<C>, d: Option<D>) -> Option<(A, B, C, D)> {
    match (a, b, c, d) {
        (Some(a), Some(b), Some(c), Some(d)) => Some((a, b, c, d)),
        _ => None,
    }
}

/// Decides whether a row is kept: it is if each of its four parts is there.
pub fn keep4<A, B, C, D>(a: Option<A>, b: Option<B>, c: Option<C>, d: Option<D>) -> (item: Option<(A, B, C, D)>)
    ensures
        item == every4(a, b, c, d),
{
    match (a, b, c, d) {
        (Some(a), Some(b), Some(c), Some(d)) => Some((a, b, c, d)),
        _ => None,
    }
}

impl<'w, A: 'static> QueryParameters<'w> for (&'w A,) {
    open spec fn arity() -> nat {
        1
    }

    fn fetch(world: &'w World) -> (r: Result<Query<Self>, FetchError>) {
        let mut keys: Vec<ComponentId> = Vec::new();
        match world.component_id::<A>() {
            Some(key) => keys.push(key),
            None => {
                assert(Seq::<Self>::empty() =~= kept(Seq::<Option<Self>>::empty()));
                return Ok(Query::new(Vec::new()));
            },
        }
        let rows = world.rows_with(keys.as_slice());
        proof {
            world@.lemma_rows_with(keys@, world@.archetypes.len() as int);
        }
        let mut items: Vec<Self> = Vec::new();
        let ghost mut found: Seq<Option<Self>> = Seq::empty();
        let mut i: usize = 0;
        while i < rows.len()
            invariant
                i <= rows@.len(),
                found.len() == i,
                items@ == kept(found),
                world.wf(),
                keys@.len() == 1,
                rows@ == world@.rows_with(keys@, world@.archetypes.len() as int),
                forall|j: int|
                    0 <= j < rows@.len() ==> {
                        let location = #[trigger] rows@[j];
                        &&& location.archetype_index < world@.archetypes.len()
                        &&& location.index_in_archetype
                            < world@.archetypes[location.archetype_index as int].rows()
                        &&& world@.has_all(location.archetype_index as int, keys@)
                    },
            decreases rows@.len() - i,
        {
            let location = rows[i];
            assert(world@.has_all(location.archetype_index as int, keys@));
            let part_a = downcast_ref::<A>(world.value_at(location, keys[0]));
            let decided = keep1(part_a);
            proof {
                assert(found.push(decided).drop_last() =~= found);
                found = found.push(decided);
            }
            match decided {
                Some(item) => items.push(item),
                None => {},
            }
            i = i + 1;
        }
        Ok(Query::new(items))
    }
}

impl<'w, A: 'static, B: 'static> QueryParameters<'w> for (&'w A, &'w B) {
    open spec fn arity() -> nat {
        2
    }

    fn fetch(world: &'w World) -> (r: Result<Query<Self>, FetchError>) {
        let mut keys: Vec<ComponentId> = Vec::new();
        match world.component_id::<A>() {
            Some(key) => keys.push(key),
            None => {
                assert(Seq::<Self>::empty() =~= kept(Seq::<Option<Self>>::empty()));
                return Ok(Query::new(Vec::new()));
            },
        }
        match world.component_id::<B>() {
            Some(key) => keys.push(key),
            None => {
                assert(Seq::<Self>::empty() =~= kept(Seq::<Option<Self>>::empty()));
                return Ok(Query::new(Vec::new()));
            },
        }
        let rows = world.rows_with(keys.as_slice());
        proof {
            world@.lemma_rows_with(keys@, world@.archetypes.len() as int);
        }
        let mut items: Vec<Self> = Vec::new();
        let ghost mut found: Seq<Option<Self>> = Seq::empty();
        let mut i: usize = 0;
        while i < rows.len()
            invariant
                i <= rows@.len(),
                found.len() == i,
                items@ == kept(found),
                world.wf(),
                keys@.len() == 2,
                rows@ == world@.rows_with(keys@, world@.archetypes.len() as int),
                forall|j: int|
                    0 <= j < rows@.len() ==> {
                        let location = #[trigger] rows@[j];
                        &&& location.archetype_index < world@.archetypes.len()
                        &&& location.index_in_archetype
                            < world@.archetypes[location.archetype_index as int].rows()
                        &&& world@.has_all(location.archetype_index as int, keys@)
                    },
            decreases rows@.len() - i,
        {
            let location = rows[i];
            assert(world@.has_all(location.archetype_index as int, keys@));
            let part_a = downcast_ref::<A>(world.value_at(location, keys[0]));
            let part_b = downcast_ref::<B>(world.value_at(location, keys[1]));
            let decided = keep2(part_a, part_b);
            proof {
                assert(found.push(decided).drop_last() =~= found);
                found = found.push(decided);
            }
            match decided {
                Some(item) => items.push(item),
                None => {},
            }
            i = i + 1;
        }
        Ok(Query::new(items))
    }
}

impl<'w, A: 'static, B: 'static, C: 'static> QueryParameters<'w> for (&'w A, &'w B, &'w C) {
    open spec fn arity() -> nat {
        3
    }

    fn fetch(world: &'w World) -> (r: Result<Query<Self>, FetchError>) {
        let mut keys: Vec<ComponentId> = Vec::new();
        match world.component_id::<A>() {
            Some(key) => keys.push(key),
            None => {
                assert(Seq::<Self>::empty() =~= kept(Seq::<Option<Self>>::empty()));
                return Ok(Query::new(Vec::new()));
            },
        }
        match world.component_id::<B>() {
            Some(key) => keys.push(key),
            None => {
                assert(Seq::<Self>::empty() =~= kept(Seq::<Option<Self>>::empty()));
                return Ok(Query::new(Vec::new()));
            },
        }
        match world.component_id::<C>() {
            Some(key) => keys.push(key),
            None => {
                assert(Seq::<Self>::empty() =~= kept(Seq::<Option<Self>>::empty()));
                return Ok(Query::new(Vec::new()));
            },
        }
        let rows = world.rows_with(keys.as_slice());
        proof {
            world@.lemma_rows_with(keys@, world@.archetypes.len() as int);
        }
        let mut items: Vec<Self> = Vec::new();
        let ghost mut found: Seq<Option<Self>> = Seq::empty();
        let mut i: usize = 0;
        while i < rows.len()
            invariant
                i <= rows@.len(),
                found.len() == i,
                items@ == kept(found),
                world.wf(),
                keys@.len() == 3,
                rows@ == world@.rows_with(keys@, world@.archetypes.len() as int),
                forall|j: int|
                    0 <= j < rows@.len() ==> {
                        let location = #[trigger] rows@[j];
                        &&& location.archetype_index < world@.archetypes.len()
                        &&& location.index_in_archetype
                            < world@.archetypes[location.archetype_index as int].rows()
                        &&& world@.has_all(location.archetype_index as int, keys@)
                    },
            decreases rows@.len() - i,
        {
            let location = rows[i];
            assert(world@.has_all(location.archetype_index as int, keys@));
            let part_a = downcast_ref::<A>(world.value_at(location, keys[0]));
            let part_b = downcast_ref::<B>(world.value_at(location, keys[1]));
            let part_c = downcast_ref::<C>(world.value_at(location, keys[2]));
            let decided = keep3(part_a, part_b, part_c);
            proof {
                assert(found.push(decided).drop_last() =~= found);
                found = found.push(decided);
            }
            match decided {
                Some(item) => items.push(item),
                None => {},
            }
            i = i + 1;
        }
        Ok(Query::new(items))
    }
}

impl<'w, A: 'static, B: 'static, C: 'static, D: 'static> QueryParameters<'w> for (&'w A, &'w B, &'w C, &'w D) {
    open spec fn arity() -> nat {
        4
    }

    fn fetch(world: &'w World) -> (r: Result<Query<Self>, FetchError>) {
        let mut keys: Vec<ComponentId> = Vec::new();
        match world.component_id::<A>() {
            Some(key) => keys.push(key),
            None => {
                assert(Seq::<Self>::empty() =~= kept(Seq::<Option<Self>>::empty()));
                return Ok(Query::new(Vec::new()));
            },
        }
        match world.component_id::<B>() {
            Some(key) => keys.push(key),
            None => {
                assert(Seq::<Self>::empty() =~= kept(Seq::<Option<Self>>::empty()));
                return Ok(Query::new(Vec::new()));
            },
        }
        match world.component_id::<C>() {
            Some(key) => keys.push(key),
            None => {
                assert(Seq::<Self>::empty() =~= kept(Seq::<Option<Self>>::empty()));
                return Ok(Query::new(Vec::new()));
            },
        }
        match world.component_id::<D>() {
            Some(key) => keys.push(key),
            None => {
                assert(Seq::<Self>::empty() =~= kept(Seq::<Option<Self>>::empty()));
                return Ok(Query::new(Vec::new()));
            },
        }
        let rows = world.rows_with(keys.as_slice());
        proof {
            world@.lemma_rows_with(keys@, world@.archetypes.len() as int);
        }
        let mut items: Vec<Self> = Vec::new();
        let ghost mut found: Seq<Option<Self>> = Seq::empty();
        let mut i: usize = 0;
        while i < rows.len()
            invariant
                i <= rows@.len(),
                found.len() == i,
                items@ == kept(found),
                world.wf(),
                keys@.len() == 4,
                rows@ == world@.rows_with(keys@, world@.archetypes.len() as int),
                forall|j: int|
                    0 <= j < rows@.len() ==> {
                        let location = #[trigger] rows@[j];
                        &&& location.archetype_index < world@.archetypes.len()
                        &&& location.index_in_archetype
                            < world@.archetypes[location.archetype_index as int].rows()
                        &&& world@.has_all(location.archetype_index as int, keys@)
                    },
            decreases rows@.len() - i,
        {
            let location = rows[i];
            assert(world@.has_all(location.archetype_index as int, keys@));
            let part_a = downcast_ref::<A>(world.value_at(location, keys[0]));
            let part_b = downcast_ref::<B>(world.value_at(location, keys[1]));
            let part_c = downcast_ref::<C>(world.value_at(location, keys[2]));
            let part_d = downcast_ref::<D>(world.value_at(location, keys[3]));
            let decided = keep4(part_a, part_b, part_c, part_d);
            proof {
                assert(found.push(decided).drop_last() =~= found);
                found = found.push(decided);
            }
            match decided {
                Some(item) => items.push(item),
                None => {},
            }
            i = i + 1;
        }
        Ok(Query::new(items))
    }
}

} // verus!
