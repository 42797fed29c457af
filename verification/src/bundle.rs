//! Bundles: the components an entity is spawned with.

use vstd::prelude::*;
use core::any::TypeId;
use crate::component::erase;
use crate::component::type_id_of;
use crate::component::ComponentId;
use crate::component::ErasedValue;
use crate::registry::key_of;
use crate::registry::registered;
use crate::shape::is_shape;
use crate::shape::lemma_position;
use crate::shape::lemma_with_type;
use crate::shape::position;
use crate::shape::search;
use crate::shape::with_type;

verus! {

/// What a bundle is, mathematically: component types and, for each of them, a
/// value.
#[verifier::ext_equal]
pub struct BundleView {
    pub types: Seq<ComponentId>,
    pub values: Seq<ErasedValue>,
}

impl BundleView {
    /// A bundle is well formed when its types form a shape and it has one
    /// value for each of them.
    pub open spec fn wf(self) -> bool {
        is_shape(self.types) && self.values.len() == self.types.len()
    }

    /// The value that the bundle holds under component type `key`.
    pub open spec fn value_of(self, key: ComponentId) -> ErasedValue {
        self.values[position(self.types, key)]
    }

    /// The bundle without components.
    pub open spec fn empty() -> BundleView {
        BundleView { types: Seq::empty(), values: Seq::empty() }
    }

    /// The bundle with `value` as its component of type `key`: in place of the
    /// one it has of that type, or else added in the place of `key`.
    pub open spec fn insert(self, key: ComponentId, value: ErasedValue) -> BundleView {
        let at = position(self.types, key);
        if self.types.contains(key) {
            BundleView { types: self.types, values: self.values.update(at, value) }
        } else {
            BundleView { types: with_type(self.types, key), values: self.values.insert(at, value) }
        }
    }
}

/// What gathering the parts of a tuple gives, for a world whose registry is
/// `types`: the registry after meeting the type of each part in turn, and the
/// bundle that holds each part under the `ComponentId` of its type. Where
/// several parts have one type, the bundle holds the last of them.
pub open spec fn gathered(types: Seq<TypeId>, parts: Seq<(TypeId, ErasedValue)>) -> (
    Seq<TypeId>,
    BundleView,
)
    decreases parts.len(),
{
    if parts.len() == 0 {
        (types, BundleView::empty())
    } else {
        let before = gathered(types, parts.drop_last());
        let part = parts.last();
        (
            registered(before.0, part.0),
            before.1.insert(key_of(before.0, part.0) as ComponentId, part.1),
        )
    }
}

/// Gathering parts keeps what the registry held, in its place, and gives a
/// well-formed bundle with at most one component for each part.
pub proof fn lemma_gathered(types: Seq<TypeId>, parts: Seq<(TypeId, ErasedValue)>)
    ensures
        types.is_prefix_of(gathered(types, parts).0),
        gathered(types, parts).1.wf(),
        gathered(types, parts).1.types.len() <= parts.len(),
    decreases parts.len(),
{
    if parts.len() > 0 {
        lemma_gathered(types, parts.drop_last());
        let before = gathered(types, parts.drop_last());
        let part = parts.last();
        let key = key_of(before.0, part.0) as ComponentId;
        lemma_position(before.1.types, key);
        if !before.1.types.contains(key) {
            lemma_with_type(before.1.types, key);
        }
        assert(types.is_prefix_of(registered(before.0, part.0))) by {
            assert(before.0.is_prefix_of(registered(before.0, part.0)));
        }
    }
}

/// The components for one entity, sorted by component type, at most one of
/// each type.
pub struct Bundle {
    types: Vec<ComponentId>,
    values: Vec<ErasedValue>,
}

impl View for Bundle {
    type V = BundleView;

    closed spec fn view(&self) -> BundleView {
        BundleView { types: self.types@, values: self.values@ }
    }
}

impl Bundle {
    /// A bundle without components.
    pub fn new() -> (bundle: Self)
        ensures
            bundle@ == BundleView::empty(),
            bundle@.wf(),
    {
        Bundle { types: Vec::new(), values: Vec::new() }
    }

    /// The number of components.
    pub fn len(&self) -> (n: usize)
        ensures
            n == self@.types.len(),
    {
        self.types.len()
    }

    /// Puts `value` in the bundle as its component of type `key`. A value of
    /// the same type that is already there is replaced.
    pub fn insert(&mut self, key: ComponentId, value: ErasedValue)
        requires
            old(self)@.wf(),
        ensures
            final(self)@ == old(self)@.insert(key, value),
            final(self)@.wf(),
    {
        match search(self.types.as_slice(), key) {
            Ok(at) => {
                self.values.push(value);
                self.values.swap_remove(at);
                assert(self.values@ =~= old(self).values@.update(at as int, value));
            },
            Err(at) => {
                proof {
                    lemma_position(self.types@, key);
                    lemma_with_type(self.types@, key);
                }
                self.types.insert(at, key);
                self.values.insert(at, value);
            },
        }
    }

    /// The component types, in ascending order.
    pub fn type_ids(&self) -> (types: &Vec<ComponentId>)
        ensures
            types@ == self@.types,
    {
        &self.types
    }

    /// The values, in the order of their types.
    pub fn into_values(self) -> (values: Vec<ErasedValue>)
        ensures
            values@ == self@.values,
    {
        self.values
    }
}

/// A tuple of component values that an entity can be spawned with.
///
/// `into_parts` is all a world asks of a bundle: each value with its type
/// erased, beside the identifier of the type it had.
pub trait ComponentBundle: 'static + Send + Sync + Sized {
    /// The number of values in the tuple.
    spec fn arity() -> nat;

    /// The values of the tuple, in order, each erased and with the identifier
    /// of its type.
    fn into_parts(self) -> (parts: Vec<(TypeId, ErasedValue)>)
        ensures
            parts@.len() == Self::arity(),
    ;
}

impl<A: 'static + Send + Sync> ComponentBundle for (A,) {
    open spec fn arity() -> nat {
        1
    }

    fn into_parts(self) -> (parts: Vec<(TypeId, ErasedValue)>) {
        let mut parts: Vec<(TypeId, ErasedValue)> = Vec::new();
        parts.push((type_id_of::<A>(), erase(self.0)));
        parts
    }
}

impl<A: 'static + Send + Sync, B: 'static + Send + Sync> ComponentBundle for (A, B) {
    open spec fn arity() -> nat {
        2
    }

    fn into_parts(self) -> (parts: Vec<(TypeId, ErasedValue)>) {
        let mut parts: Vec<(TypeId, ErasedValue)> = Vec::new();
        parts.push((type_id_of::<A>(), erase(self.0)));
        parts.push((type_id_of::<B>(), erase(self.1)));
        parts
    }
}

impl<A: 'static + Send + Sync, B: 'static + Send + Sync, C: 'static + Send + Sync> ComponentBundle for (A, B, C) {
    open spec fn arity() -> nat {
        3
    }

    fn into_parts(self) -> (parts: Vec<(TypeId, ErasedValue)>) {
        let mut parts: Vec<(TypeId, ErasedValue)> = Vec::new();
        parts.push((type_id_of::<A>(), erase(self.0)));
        parts.push((type_id_of::<B>(), erase(self.1)));
        parts.push((type_id_of::<C>(), erase(self.2)));
        parts
    }
}

impl<A: 'static + Send + Sync, B: 'static + Send + Sync, C: 'static + Send + Sync, D: 'static + Send + Sync> ComponentBundle for (A, B, C, D) {
    open spec fn arity() -> nat {
        4
    }

    fn into_parts(self) -> (parts: Vec<(TypeId, ErasedValue)>) {
        let mut parts: Vec<(TypeId, ErasedValue)> = Vec::new();
        parts.push((type_id_of::<A>(), erase(self.0)));
        parts.push((type_id_of::<B>(), erase(self.1)));
        parts.push((type_id_of::<C>(), erase(self.2)));
        parts.push((type_id_of::<D>(), erase(self.3)));
        parts
    }
}

impl<A: 'static + Send + Sync, B: 'static + Send + Sync, C: 'static + Send + Sync, D: 'static + Send + Sync, E: 'static + Send + Sync> ComponentBundle for (A, B, C, D, E) {
    open spec fn arity() -> nat {
        5
    }

    fn into_parts(self) -> (parts: Vec<(TypeId, ErasedValue)>) {
        let mut parts: Vec<(TypeId, ErasedValue)> = Vec::new();
        parts.push((type_id_of::<A>(), erase(self.0)));
        parts.push((type_id_of::<B>(), erase(self.1)));
        parts.push((type_id_of::<C>(), erase(self.2)));
        parts.push((type_id_of::<D>(), erase(self.3)));
        parts.push((type_id_of::<E>(), erase(self.4)));
        parts
    }
}

impl<A: 'static + Send + Sync, B: 'static + Send + Sync, C: 'static + Send + Sync, D: 'static + Send + Sync, E: 'static + Send + Sync, F: 'static + Send + Sync> ComponentBundle for (A, B, C, D, E, F) {
    open spec fn arity() -> nat {
        6
    }

    fn into_parts(self) -> (parts: Vec<(TypeId, ErasedValue)>) {
        let mut parts: Vec<(TypeId, ErasedValue)> = Vec::new();
        parts.push((type_id_of::<A>(), erase(self.0)));
        parts.push((type_id_of::<B>(), erase(self.1)));
        parts.push((type_id_of::<C>(), erase(self.2)));
        parts.push((type_id_of::<D>(), erase(self.3)));
        parts.push((type_id_of::<E>(), erase(self.4)));
        parts.push((type_id_of::<F>(), erase(self.5)));
        parts
    }
}

impl<A: 'static + Send + Sync, B: 'static + Send + Sync, C: 'static + Send + Sync, D: 'static + Send + Sync, E: 'static + Send + Sync, F: 'static + Send + Sync, G: 'static + Send + Sync> ComponentBundle for (A, B, C, D, E, F, G) {
    open spec fn arity() -> nat {
        7
    }

    fn into_parts(self) -> (parts: Vec<(TypeId, ErasedValue)>) {
        let mut parts: Vec<(TypeId, ErasedValue)> = Vec::new();
        parts.push((type_id_of::<A>(), erase(self.0)));
        parts.push((type_id_of::<B>(), erase(self.1)));
        parts.push((type_id_of::<C>(), erase(self.2)));
        parts.push((type_id_of::<D>(), erase(self.3)));
        parts.push((type_id_of::<E>(), erase(self.4)));
        parts.push((type_id_of::<F>(), erase(self.5)));
        parts.push((type_id_of::<G>(), erase(self.6)));
        parts
    }
}

impl<A: 'static + Send + Sync, B: 'static + Send + Sync, C: 'static + Send + Sync, D: 'static + Send + Sync, E: 'static + Send + Sync, F: 'static + Send + Sync, G: 'static + Send + Sync, H: 'static + Send + Sync> ComponentBundle for (A, B, C, D, E, F, G, H) {
    open spec fn arity() -> nat {
        8
    }

    fn into_parts(self) -> (parts: Vec<(TypeId, ErasedValue)>) {
        let mut parts: Vec<(TypeId, ErasedValue)> = Vec::new();
        parts.push((type_id_of::<A>(), erase(self.0)));
        parts.push((type_id_of::<B>(), erase(self.1)));
        parts.push((type_id_of::<C>(), erase(self.2)));
        parts.push((type_id_of::<D>(), erase(self.3)));
        parts.push((type_id_of::<E>(), erase(self.4)));
        parts.push((type_id_of::<F>(), erase(self.5)));
        parts.push((type_id_of::<G>(), erase(self.6)));
        parts.push((type_id_of::<H>(), erase(self.7)));
        parts
    }
}

impl<A: 'static + Send + Sync, B: 'static + Send + Sync, C: 'static + Send + Sync, D: 'static + Send + Sync, E: 'static + Send + Sync, F: 'static + Send + Sync, G: 'static + Send + Sync, H: 'static + Send + Sync, I: 'static + Send + Sync> ComponentBundle for (A, B, C, D, E, F, G, H, I) {
    open spec fn arity() -> nat {
        9
    }

    fn into_parts(self) -> (parts: Vec<(TypeId, ErasedValue)>) {
        let mut parts: Vec<(TypeId, ErasedValue)> = Vec::new();
        parts.push((type_id_of::<A>(), erase(self.0)));
        parts.push((type_id_of::<B>(), erase(self.1)));
        parts.push((type_id_of::<C>(), erase(self.2)));
        parts.push((type_id_of::<D>(), erase(self.3)));
        parts.push((type_id_of::<E>(), erase(self.4)));
        parts.push((type_id_of::<F>(), erase(self.5)));
        parts.push((type_id_of::<G>(), erase(self.6)));
        parts.push((type_id_of::<H>(), erase(self.7)));
        parts.push((type_id_of::<I>(), erase(self.8)));
        parts
    }
}

impl<A: 'static + Send + Sync, B: 'static + Send + Sync, C: 'static + Send + Sync, D: 'static + Send + Sync, E: 'static + Send + Sync, F: 'static + Send + Sync, G: 'static + Send + Sync, H: 'static + Send + Sync, I: 'static + Send + Sync, J: 'static + Send + Sync> ComponentBundle for (A, B, C, D, E, F, G, H, I, J) {
    open spec fn arity() -> nat {
        10
    }

    fn into_parts(self) -> (parts: Vec<(TypeId, ErasedValue)>) {
        let mut parts: Vec<(TypeId, ErasedValue)> = Vec::new();
        parts.push((type_id_of::<A>(), erase(self.0)));
        parts.push((type_id_of::<B>(), erase(self.1)));
        parts.push((type_id_of::<C>(), erase(self.2)));
        parts.push((type_id_of::<D>(), erase(self.3)));
        parts.push((type_id_of::<E>(), erase(self.4)));
        parts.push((type_id_of::<F>(), erase(self.5)));
        parts.push((type_id_of::<G>(), erase(self.6)));
        parts.push((type_id_of::<H>(), erase(self.7)));
        parts.push((type_id_of::<I>(), erase(self.8)));
        parts.push((type_id_of::<J>(), erase(self.9)));
        parts
    }
}

impl<A: 'static + Send + Sync, B: 'static + Send + Sync, C: 'static + Send + Sync, D: 'static + Send + Sync, E: 'static + Send + Sync, F: 'static + Send + Sync, G: 'static + Send + Sync, H: 'static + Send + Sync, I: 'static + Send + Sync, J: 'static + Send + Sync, K: 'static + Send + Sync> ComponentBundle for (A, B, C, D, E, F, G, H, I, J, K) {
    open spec fn arity() -> nat {
        11
    }

    fn into_parts(self) -> (parts: Vec<(TypeId, ErasedValue)>) {
        let mut parts: Vec<(TypeId, ErasedValue)> = Vec::new();
        parts.push((type_id_of::<A>(), erase(self.0)));
        parts.push((type_id_of::<B>(), erase(self.1)));
        parts.push((type_id_of::<C>(), erase(self.2)));
        parts.push((type_id_of::<D>(), erase(self.3)));
        parts.push((type_id_of::<E>(), erase(self.4)));
        parts.push((type_id_of::<F>(), erase(self.5)));
        parts.push((type_id_of::<G>(), erase(self.6)));
        parts.push((type_id_of::<H>(), erase(self.7)));
        parts.push((type_id_of::<I>(), erase(self.8)));
        parts.push((type_id_of::<J>(), erase(self.9)));
        parts.push((type_id_of::<K>(), erase(self.10)));
        parts
    }
}

impl<A: 'static + Send + Sync, B: 'static + Send + Sync, C: 'static + Send + Sync, D: 'static + Send + Sync, E: 'static + Send + Sync, F: 'static + Send + Sync, G: 'static + Send + Sync, H: 'static + Send + Sync, I: 'static + Send + Sync, J: 'static + Send + Sync, K: 'static + Send + Sync, L: 'static + Send + Sync> ComponentBundle for (A, B, C, D, E, F, G, H, I, J, K, L) {
    open spec fn arity() -> nat {
        12
    }

    fn into_parts(self) -> (parts: Vec<(TypeId, ErasedValue)>) {
        let mut parts: Vec<(TypeId, ErasedValue)> = Vec::new();
        parts.push((type_id_of::<A>(), erase(self.0)));
        parts.push((type_id_of::<B>(), erase(self.1)));
        parts.push((type_id_of::<C>(), erase(self.2)));
        parts.push((type_id_of::<D>(), erase(self.3)));
        parts.push((type_id_of::<E>(), erase(self.4)));
        parts.push((type_id_of::<F>(), erase(self.5)));
        parts.push((type_id_of::<G>(), erase(self.6)));
        parts.push((type_id_of::<H>(), erase(self.7)));
        parts.push((type_id_of::<I>(), erase(self.8)));
        parts.push((type_id_of::<J>(), erase(self.9)));
        parts.push((type_id_of::<K>(), erase(self.10)));
        parts.push((type_id_of::<L>(), erase(self.11)));
        parts
    }
}

} // verus!
