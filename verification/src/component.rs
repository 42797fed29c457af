//! Component values with their type erased, and the columns that hold them.

use vstd::prelude::*;
use core::any::Any;
use core::any::TypeId;
use crate::entity::EntityId;

verus! {

/// The small integer that stands for a component type. A world hands them out
/// in the order in which it first meets each type; shapes are sorted and hashed
/// by them.
pub type ComponentId = usize;

/// The run-time identifier of a Rust type. Opaque: two of them can be compared
/// with [`same_type`], nothing else is known of one.
#[verifier::external_type_specification]
#[verifier::external_body]
pub struct ExTypeId(TypeId);

/// A component value whose type is known only at run time.
///
/// It owns a `Box<dyn Any + Send + Sync>`. The verifier sees no further into
/// it: a value of this type is carried around, stored and handed back, and only
/// the functions of this module look inside.
#[verifier::external_body]
pub struct ErasedValue {
    inner: Box<dyn Any + Send + Sync>,
}

/// Boxes `value` and forgets its type (`Box::new`, coerced to `dyn Any`).
/// Nothing is claimed of the result.
#[verifier::external_body]
pub(crate) fn erase<T: 'static + Send + Sync>(value: T) -> ErasedValue {
    ErasedValue { inner: Box::new(value) }
}

/// `Box<dyn Any + Send + Sync>::downcast`: gives the value back as a `T` if it
/// is one. The contract claims only that a failed downcast returns the erased
/// value it was given.
#[verifier::external_body]
pub(crate) fn downcast<T: 'static>(value: ErasedValue) -> (r: Result<T, ErasedValue>)
    ensures
        r matches Err(back) ==> back == value,
{
    match value.inner.downcast::<T>() {
        Ok(b) => Ok(*b),
        Err(inner) => Err(ErasedValue { inner }),
    }
}

/// `<dyn Any>::downcast_ref`: a shared reference to the value as a `T`, if it
/// is one. Nothing is claimed of the result.
#[verifier::external_body]
pub(crate) fn downcast_ref<T: 'static>(value: &ErasedValue) -> Option<&T> {
    value.inner.downcast_ref::<T>()
}

/// `<dyn Any>::downcast_mut`: a mutable reference to the value as a `T`, if
/// it is one. The contract claims only that the erased value is untouched when
/// no reference is handed out.
#[verifier::external_body]
pub(crate) fn downcast_mut<T: 'static>(value: &mut ErasedValue) -> (r: Option<&mut T>)
    ensures
        r is None ==> *final(value) == *old(value),
{
    value.inner.downcast_mut::<T>()
}

/// `TypeId::of::<T>()`. Nothing is claimed of the result.
#[verifier::external_body]
pub(crate) fn type_id_of<T: 'static>() -> TypeId {
    TypeId::of::<T>()
}

/// `TypeId`'s `==`: whether two identifiers are the same identifier.
#[verifier::external_body]
pub(crate) fn same_type(a: &TypeId, b: &TypeId) -> (r: bool)
    ensures
        r == (*a == *b),
{
    a == b
}

/// What a column is, mathematically: the component type it is for, and its
/// values by row.
#[verifier::ext_equal]
pub struct ColumnView {
    pub type_id: ComponentId,
    pub data: Seq<ErasedValue>,
}

impl ColumnView {
    /// The column without row `row`: the last value takes its place.
    pub open spec fn swap_remove(self, row: int) -> ColumnView {
        ColumnView { type_id: self.type_id, data: self.data.update(row, self.data.last()).drop_last() }
    }

    /// The column with `value` as a new last row.
    pub open spec fn push(self, value: ErasedValue) -> ColumnView {
        ColumnView { type_id: self.type_id, data: self.data.push(value) }
    }

    /// The column with `value` in row `row`.
    pub open spec fn replace(self, row: int, value: ErasedValue) -> ColumnView {
        ColumnView { type_id: self.type_id, data: self.data.update(row, value) }
    }

    /// The empty column for component type `type_id`.
    pub open spec fn empty(type_id: ComponentId) -> ColumnView {
        ColumnView { type_id, data: Seq::empty() }
    }
}

/// One column of an archetype: every value of one component type, one per row.
pub struct ComponentStore {
    pub(crate) type_id: ComponentId,
    pub(crate) data: Vec<ErasedValue>,
}

impl View for ComponentStore {
    type V = ColumnView;

    closed spec fn view(&self) -> ColumnView {
        ColumnView { type_id: self.type_id, data: self.data@ }
    }
}

impl ComponentStore {
    /// An empty column for component type `type_id`.
    pub fn new(type_id: ComponentId) -> (store: Self)
        ensures
            store@ == ColumnView::empty(type_id),
    {
        ComponentStore { type_id, data: Vec::new() }
    }

    /// An empty column for the same component type as this one.
    pub fn new_same_type(&self) -> (store: Self)
        ensures
            store@ == ColumnView::empty(self@.type_id),
    {
        ComponentStore { type_id: self.type_id, data: Vec::new() }
    }

    /// The component type this column is for.
    pub fn type_id(&self) -> (id: ComponentId)
        ensures
            id == self@.type_id,
    {
        self.type_id
    }

    /// The number of rows.
    pub fn len(&self) -> (n: usize)
        ensures
            n == self@.data.len(),
    {
        self.data.len()
    }

    /// Appends `value` as a new last row.
    pub fn push(&mut self, value: ErasedValue)
        ensures
            final(self)@ == old(self)@.push(value),
    {
        self.data.push(value);
    }

    /// Puts `value` in row `index` and returns the value that was there.
    pub fn replace(&mut self, index: EntityId, value: ErasedValue) -> (previous: ErasedValue)
        requires
            index < old(self)@.data.len(),
        ensures
            final(self)@ == old(self)@.replace(index as int, value),
            previous == old(self)@.data[index as int],
    {
        self.data.push(value);
        let previous = self.data.swap_remove(index as usize);
        assert(self.data@ =~= old(self).data@.update(index as int, value));
        previous
    }

    /// Removes row `index` and returns its value; the last row takes its place.
    pub fn swap_remove(&mut self, index: EntityId) -> (removed: ErasedValue)
        requires
            index < old(self)@.data.len(),
        ensures
            final(self)@ == old(self)@.swap_remove(index as int),
            removed == old(self)@.data[index as int],
    {
        self.data.swap_remove(index as usize)
    }

    /// Moves the value of row `entity_index` to the end of `other`; the last
    /// row of this column takes its place.
    pub fn migrate(&mut self, entity_index: EntityId, other: &mut ComponentStore)
        requires
            entity_index < old(self)@.data.len(),
        ensures
            final(self)@ == old(self)@.swap_remove(entity_index as int),
            final(other)@ == old(other)@.push(old(self)@.data[entity_index as int]),
    {
        let value = self.data.swap_remove(entity_index as usize);
        other.data.push(value);
    }

    /// Mutable access to all the values of the column.
    pub fn data_mut(&mut self) -> (data: &mut Vec<ErasedValue>)
        ensures
            data@ == old(self)@.data,
            final(self)@ == (ColumnView { type_id: old(self)@.type_id, data: final(data)@ }),
    {
        &mut self.data
    }

    /// The value in row `index`.
    pub fn get(&self, index: EntityId) -> (value: &ErasedValue)
        requires
            index < self@.data.len(),
        ensures
            *value == self@.data[index as int],
    {
        &self.data[index as usize]
    }

    /// Mutable access to the value in row `index`.
    pub fn get_mut(&mut self, index: EntityId) -> (value: &mut ErasedValue)
        requires
            index < old(self)@.data.len(),
        ensures
            *value == old(self)@.data[index as int],
            final(self)@ == old(self)@.replace(index as int, *final(value)),
    {
        &mut self.data[index as usize]
    }
}

} // verus!
