//! The table that gives each component type its `ComponentId`.

use vstd::prelude::*;
use core::any::TypeId;
use crate::component::same_type;
use crate::component::ComponentId;

verus! {

/// The table `types` after it has met the component type `id`: `id` stands at
/// its end if it was not in the table.
pub open spec fn registered(types: Seq<TypeId>, id: TypeId) -> Seq<TypeId> {
    if types.contains(id) {
        types
    } else {
        types.push(id)
    }
}

/// The `ComponentId` that the table `types` gives the component type `id`: its
/// place in the table, or the place at the end that it gets when it is added.
pub open spec fn key_of(types: Seq<TypeId>, id: TypeId) -> int {
    if types.contains(id) {
        choose|i: int| 0 <= i < types.len() && types[i] == id
    } else {
        types.len() as int
    }
}

/// `key_of` as a `ComponentId`.
pub open spec fn id_of(types: Seq<TypeId>, id: TypeId) -> ComponentId {
    key_of(types, id) as ComponentId
}

/// The component types a world has met, in the order in which it met them. A
/// type's position in the table is its `ComponentId`.
pub struct TypeRegistry {
    ids: Vec<TypeId>,
}

impl View for TypeRegistry {
    type V = Seq<TypeId>;

    closed spec fn view(&self) -> Seq<TypeId> {
        self.ids@
    }
}

impl TypeRegistry {
    /// The table is well formed when it lists no type twice.
    pub open spec fn wf(&self) -> bool {
        self@.no_duplicates()
    }

    /// An empty table.
    pub fn new() -> (registry: Self)
        ensures
            registry@ == Seq::<TypeId>::empty(),
            registry.wf(),
    {
        TypeRegistry { ids: Vec::new() }
    }

    /// The number of types in the table.
    pub fn len(&self) -> (n: usize)
        ensures
            n == self@.len(),
    {
        self.ids.len()
    }

    /// The `ComponentId` of the type `id`, if the table lists it.
    pub fn lookup(&self, id: &TypeId) -> (r: Option<ComponentId>)
        ensures
            r is Some <==> self@.contains(*id),
            r matches Some(key) ==> key < self@.len() && self@[key as int] == *id,
            self.wf() ==> (r matches Some(key) ==> key == key_of(self@, *id)),
    {
        proof {
            if self.wf() && self@.contains(*id) {
                let chosen = key_of(self@, *id);
                assert forall|k: int| 0 <= k < self@.len() && self@[k] == *id implies k
                    == chosen by {
                    if k != chosen {
                        assert(self@[k] == self@[chosen]);
                    }
                }
            }
        }
        let mut i: usize = 0;
        while i < self.ids.len()
            invariant
                i <= self.ids@.len(),
                forall|k: int| 0 <= k < i ==> self.ids@[k] != *id,
            decreases self.ids@.len() - i,
        {
            if same_type(&self.ids[i], id) {
                return Some(i);
            }
            i = i + 1;
        }
        None
    }

    /// The `ComponentId` of the type `id`; a type that the table does not list
    /// is added at its end.
    pub fn register(&mut self, id: TypeId) -> (key: ComponentId)
        requires
            old(self).wf(),
        ensures
            final(self).wf(),
            final(self)@ == registered(old(self)@, id),
            key == key_of(old(self)@, id),
            key < final(self)@.len(),
            final(self)@[key as int] == id,
    {
        match self.lookup(&id) {
            Some(key) => {
                assert(key == key_of(self@, id)) by {
                    let chosen = key_of(self@, id);
                    if chosen != key {
                        assert(self@[chosen] == self@[key as int]);
                    }
                }
                key
            },
            None => {
                self.ids.push(id);
                assert forall|i: int, j: int|
                    0 <= i < self.ids@.len() && 0 <= j < self.ids@.len() && i != j implies self.ids@[i]
                    != self.ids@[j] by {
                    if i < old(self).ids@.len() && j < old(self).ids@.len() {
                        assert(old(self).ids@[i] != old(self).ids@[j]);
                    } else if i < old(self).ids@.len() {
                        assert(old(self).ids@.contains(old(self).ids@[i]));
                    } else {
                        assert(old(self).ids@.contains(old(self).ids@[j]));
                    }
                }
                self.ids.len() - 1
            },
        }
    }
}

} // verus!
