//! Archetypes: one table per shape, with a row per entity and a column per
//! component type.

use vstd::prelude::*;
use crate::component::downcast_mut;
use crate::component::ColumnView;
use crate::component::ComponentId;
use crate::component::ComponentStore;
use crate::component::ErasedValue;
use crate::entity::EntityId;
use crate::error::EntityMissingComponent;
use crate::shape::is_shape;
use crate::shape::position;
use crate::shape::search;

verus! {

/// What an archetype is, mathematically: the entity index of each row, and the
/// columns in the order of their component types.
#[verifier::ext_equal]
pub struct ArchetypeView {
    pub entities: Seq<EntityId>,
    pub columns: Seq<ColumnView>,
}

impl ArchetypeView {
    /// The component types of the columns, in column order.
    pub open spec fn shape(self) -> Seq<ComponentId> {
        Seq::new(self.columns.len(), |c: int| self.columns[c].type_id)
    }

    /// The number of rows.
    pub open spec fn rows(self) -> nat {
        self.entities.len()
    }

    /// An archetype is well formed when its columns are in strictly ascending
    /// order of component type and every column has exactly one value per row.
    pub open spec fn wf(self) -> bool {
        &&& is_shape(self.shape())
        &&& forall|c: int|
            0 <= c < self.columns.len() ==> (#[trigger] self.columns[c]).data.len()
                == self.entities.len()
    }

    /// Whether the archetype has a column for component type `key`.
    pub open spec fn has(self, key: ComponentId) -> bool {
        self.shape().contains(key)
    }

    /// The index of the column for component type `key`, or the index at which
    /// such a column would have to be inserted.
    pub open spec fn column_of(self, key: ComponentId) -> int {
        position(self.shape(), key)
    }

    /// The values of row `row`, in column order.
    pub open spec fn row(self, row: int) -> Seq<ErasedValue> {
        Seq::new(self.columns.len(), |c: int| self.columns[c].data[row])
    }

    /// The archetype with `column` in place of column `c`.
    pub open spec fn with_column(self, c: int, column: ColumnView) -> ArchetypeView {
        ArchetypeView { entities: self.entities, columns: self.columns.update(c, column) }
    }

    /// The archetype with `value` in row `row` of column `c`.
    pub open spec fn replace(self, c: int, row: int, value: ErasedValue) -> ArchetypeView {
        self.with_column(c, self.columns[c].replace(row, value))
    }

    /// The archetype without row `row`: in the entity list and in every column
    /// the last row takes its place.
    pub open spec fn swap_remove(self, row: int) -> ArchetypeView {
        ArchetypeView {
            entities: self.entities.update(row, self.entities.last()).drop_last(),
            columns: Seq::new(self.columns.len(), |c: int| self.columns[c].swap_remove(row)),
        }
    }

    /// The archetype with a new last row for `entity`, holding `values` in
    /// column order.
    pub open spec fn push_row(self, entity: EntityId, values: Seq<ErasedValue>) -> ArchetypeView {
        ArchetypeView {
            entities: self.entities.push(entity),
            columns: Seq::new(self.columns.len(), |c: int| self.columns[c].push(values[c])),
        }
    }

    /// The archetype of shape `types` with no rows.
    pub open spec fn empty(types: Seq<ComponentId>) -> ArchetypeView {
        ArchetypeView {
            entities: Seq::empty(),
            columns: Seq::new(types.len(), |c: int| ColumnView::empty(types[c])),
        }
    }
}

/// An archetype stores the entities that have the same set of component types.
pub struct Archetype {
    pub(crate) entities: Vec<EntityId>,
    pub(crate) components: Vec<ComponentStore>,
}

impl View for Archetype {
    type V = ArchetypeView;

    closed spec fn view(&self) -> ArchetypeView {
        ArchetypeView {
            entities: self.entities@,
            columns: Seq::new(self.components@.len(), |c: int| self.components@[c]@),
        }
    }
}

impl Archetype {
    /// An archetype with no columns and no rows.
    pub fn new() -> (archetype: Self)
        ensures
            archetype@ == ArchetypeView::empty(Seq::empty()),
    {
        let archetype = Archetype { entities: Vec::new(), components: Vec::new() };
        assert(archetype@.columns =~= ArchetypeView::empty(Seq::empty()).columns);
        archetype
    }

    /// An archetype with no rows and one empty column for each of `types`.
    pub fn with_shape(types: &[ComponentId]) -> (archetype: Self)
        ensures
            archetype@ == ArchetypeView::empty(types@),
    {
        let mut components: Vec<ComponentStore> = Vec::new();
        let mut i: usize = 0;
        while i < types.len()
            invariant
                i <= types.len(),
                components@.len() == i,
                forall|c: int| 0 <= c < i ==> (#[trigger] components@[c])@ == ColumnView::empty(types@[c]),
            decreases types.len() - i,
        {
            components.push(ComponentStore::new(types[i]));
            i = i + 1;
        }
        let archetype = Archetype { entities: Vec::new(), components };
        assert(archetype@.columns =~= ArchetypeView::empty(types@).columns);
        archetype
    }

    /// The number of rows.
    pub fn len(&self) -> (n: usize)
        ensures
            n == self@.rows(),
    {
        self.entities.len()
    }

    /// The number of columns.
    pub fn column_count(&self) -> (n: usize)
        ensures
            n == self@.columns.len(),
    {
        self.components.len()
    }

    /// The column with index `index`.
    pub fn get(&self, index: usize) -> (store: &ComponentStore)
        requires
            index < self@.columns.len(),
        ensures
            store@ == self@.columns[index as int],
    {
        &self.components[index]
    }

    /// The entity index of row `index`.
    pub fn entity_at(&self, index: EntityId) -> (entity: EntityId)
        requires
            index < self@.rows(),
        ensures
            entity == self@.entities[index as int],
    {
        self.entities[index as usize]
    }

    /// The component types of the columns, in column order.
    pub fn type_ids(&self) -> (types: Vec<ComponentId>)
        ensures
            types@ == self@.shape(),
    {
        let mut types: Vec<ComponentId> = Vec::new();
        let mut i: usize = 0;
        while i < self.components.len()
            invariant
                i <= self.components@.len(),
                types@.len() == i,
                forall|c: int| 0 <= c < i ==> types@[c] == (#[trigger] self.components@[c])@.type_id,
            decreases self.components@.len() - i,
        {
            types.push(self.components[i].type_id());
            i = i + 1;
        }
        assert(types@ =~= self@.shape());
        types
    }

    /// Looks for the column of component type `key`. `Ok` holds its index,
    /// `Err` the index at which such a column would have to be inserted.
    pub fn find_column(&self, key: ComponentId) -> (r: Result<usize, usize>)
        requires
            is_shape(self@.shape()),
        ensures
            self@.has(key) <==> r is Ok,
            r matches Ok(c) ==> c == self@.column_of(key) && c < self@.columns.len()
                && self@.columns[c as int].type_id == key,
            r matches Err(c) ==> c == self@.column_of(key) && c <= self@.columns.len(),
    {
        let types = self.type_ids();
        search(types.as_slice(), key)
    }

    /// Removes row `index` from the entity list and from every column. Returns
    /// the entity index that was in the last row: the entity that now sits in
    /// row `index`, unless row `index` was the last row itself.
    pub fn remove_entity(&mut self, index: EntityId) -> (moved: EntityId)
        requires
            old(self)@.wf(),
            index < old(self)@.rows(),
        ensures
            final(self)@ == old(self)@.swap_remove(index as int),
            moved == old(self)@.entities.last(),
    {
        let mut c: usize = 0;
        while c < self.components.len()
            invariant
                c <= self.components@.len(),
                self.components@.len() == old(self).components@.len(),
                self.entities == old(self).entities,
                old(self)@.wf(),
                index < old(self)@.rows(),
                forall|k: int|
                    0 <= k < c ==> (#[trigger] self.components@[k])@ == old(
                        self,
                    ).components@[k]@.swap_remove(index as int),
                forall|k: int|
                    c <= k < self.components@.len() ==> (#[trigger] self.components@[k])
                        == old(self).components@[k],
            decreases self.components@.len() - c,
        {
            assert(old(self)@.columns[c as int].data.len() == old(self)@.entities.len());
            self.components[c].swap_remove(index);
            c = c + 1;
        }
        let moved = self.entities[self.entities.len() - 1];
        self.entities.swap_remove(index as usize);
        assert(self@.columns =~= old(self)@.swap_remove(index as int).columns);
        moved
    }

    /// Mutable access to the values of column `component_index`.
    pub fn mutable_component_store(&mut self, component_index: usize) -> (store: &mut Vec<
        ErasedValue,
    >)
        requires
            component_index < old(self)@.columns.len(),
        ensures
            store@ == old(self)@.columns[component_index as int].data,
            final(self)@ =~~= old(self)@.with_column(
                component_index as int,
                ColumnView {
                    type_id: old(self)@.columns[component_index as int].type_id,
                    data: final(store)@,
                },
            ),
    {
        self.components[component_index].data_mut()
    }

    /// Puts `value` in row `index` of column `component_index`, in place of the
    /// value that was there.
    pub fn replace_component(&mut self, component_index: usize, index: EntityId, value: ErasedValue)
        requires
            component_index < old(self)@.columns.len(),
            index < old(self)@.columns[component_index as int].data.len(),
        ensures
            final(self)@ == old(self)@.replace(component_index as int, index as int, value),
    {
        self.components[component_index].replace(index, value);
        assert(self@.columns =~= old(self)@.replace(
            component_index as int,
            index as int,
            value,
        ).columns);
    }

    /// Appends `value` to column `component_index`.
    pub fn push(&mut self, component_index: usize, value: ErasedValue)
        requires
            component_index < old(self)@.columns.len(),
        ensures
            final(self)@ == old(self)@.with_column(
                component_index as int,
                old(self)@.columns[component_index as int].push(value),
            ),
    {
        self.components[component_index].push(value);
        assert(self@.columns =~= old(self)@.columns.update(
            component_index as int,
            old(self)@.columns[component_index as int].push(value),
        ));
    }

    /// Removes the value in row `index` of column `component_index` and returns
    /// it; the last value of the column takes its place.
    pub fn take_component(&mut self, component_index: usize, index: EntityId) -> (removed:
        ErasedValue)
        requires
            component_index < old(self)@.columns.len(),
            index < old(self)@.columns[component_index as int].data.len(),
        ensures
            final(self)@ == old(self)@.with_column(
                component_index as int,
                old(self)@.columns[component_index as int].swap_remove(index as int),
            ),
            removed == old(self)@.columns[component_index as int].data[index as int],
    {
        let removed = self.components[component_index].swap_remove(index);
        assert(self@.columns =~= old(self)@.columns.update(
            component_index as int,
            old(self)@.columns[component_index as int].swap_remove(index as int),
        ));
        removed
    }

    /// Moves the value in row `entity_index` of column `component_index` to the
    /// end of column `other_index` of `other_archetype`. The two columns must
    /// be for the same component type; nothing here depends on which type that
    /// is.
    pub fn migrate_component(
        &mut self,
        component_index: usize,
        entity_index: EntityId,
        other_archetype: &mut Archetype,
        other_index: usize,
    )
        requires
            component_index < old(self)@.columns.len(),
            entity_index < old(self)@.columns[component_index as int].data.len(),
            other_index < old(other_archetype)@.columns.len(),
        ensures
            final(self)@ == old(self)@.with_column(
                component_index as int,
                old(self)@.columns[component_index as int].swap_remove(entity_index as int),
            ),
            final(other_archetype)@ == old(other_archetype)@.with_column(
                other_index as int,
                old(other_archetype)@.columns[other_index as int].push(
                    old(self)@.columns[component_index as int].data[entity_index as int],
                ),
            ),
    {
        self.components[component_index].migrate(
            entity_index,
            &mut other_archetype.components[other_index],
        );
        assert(self@.columns =~= old(self)@.columns.update(
            component_index as int,
            old(self)@.columns[component_index as int].swap_remove(entity_index as int),
        ));
        assert(other_archetype@.columns =~= old(other_archetype)@.columns.update(
            other_index as int,
            old(other_archetype)@.columns[other_index as int].push(
                old(self)@.columns[component_index as int].data[entity_index as int],
            ),
        ));
    }

    /// Whether the columns are exactly for the component types `types`, in
    /// this order.
    pub fn has_shape(&self, types: &[ComponentId]) -> (same: bool)
        ensures
            same == (self@.shape() == types@),
    {
        if self.components.len() != types.len() {
            return false;
        }
        let mut i: usize = 0;
        while i < types.len()
            invariant
                i <= types.len(),
                types@.len() == self.components@.len(),
                forall|c: int| 0 <= c < i ==> self@.shape()[c] == types@[c],
            decreases types.len() - i,
        {
            if self.components[i].type_id() != types[i] {
                assert(self@.shape()[i as int] != types@[i as int]);
                return false;
            }
            i = i + 1;
        }
        assert(self@.shape() =~= types@);
        true
    }

    /// Appends a row for `entity` that holds `values`, one for each column in
    /// column order.
    pub fn push_row(&mut self, entity: EntityId, values: Vec<ErasedValue>)
        requires
            values@.len() == old(self)@.columns.len(),
        ensures
            final(self)@ == old(self)@.push_row(entity, values@),
    {
        let mut values = values;
        let ghost all = values@;
        let mut c: usize = self.components.len();
        while c > 0
            invariant
                c <= self.components@.len(),
                self.components@.len() == old(self).components@.len(),
                self.entities == old(self).entities,
                all.len() == self.components@.len(),
                values@ == all.take(c as int),
                forall|k: int|
                    0 <= k < c ==> (#[trigger] self.components@[k]) == old(self).components@[k],
                forall|k: int|
                    c <= k < self.components@.len() ==> (#[trigger] self.components@[k])@ == old(
                        self,
                    ).components@[k]@.push(all[k]),
            decreases c,
        {
            c = c - 1;
            let value = values.pop().unwrap();
            assert(values@ =~= all.take(c as int));
            self.components[c].push(value);
        }
        self.entities.push(entity);
        assert(self@.columns =~= old(self)@.push_row(entity, all).columns);
    }

    /// Moves row `row` to the end of `other`, which has one column more: the
    /// columns before `at` go to the columns of the same index, `value` goes to
    /// column `at`, and the columns from `at` on go one column further. The
    /// last row takes the place of row `row`; `entity` is the entity index of
    /// the row that moves.
    pub fn move_row_adding(
        &mut self,
        row: EntityId,
        entity: EntityId,
        other: &mut Archetype,
        at: usize,
        value: ErasedValue,
    )
        requires
            old(self)@.wf(),
            old(other)@.wf(),
            row < old(self)@.rows(),
            at <= old(self)@.columns.len(),
            old(other)@.columns.len() == old(self)@.columns.len() + 1,
        ensures
            final(self)@ == old(self)@.swap_remove(row as int),
            final(other)@ == old(other)@.push_row(
                entity,
                old(self)@.row(row as int).insert(at as int, value),
            ),
    {
        let ghost source = self@;
        let ghost target = other@;
        let ghost values = source.row(row as int).insert(at as int, value);
        let count = self.components.len();
        let mut i: usize = 0;
        while i < at
            invariant
                i <= at <= count,
                count == source.columns.len(),
                source.wf(),
                row < source.rows(),
                self@.entities == source.entities,
                other@.entities == target.entities,
                self@.columns.len() == count,
                other@.columns.len() == count + 1,
                target.columns.len() == count + 1,
                values == source.row(row as int).insert(at as int, value),
                forall|k: int| 0 <= k < i ==> #[trigger] self@.columns[k] == source.columns[k].swap_remove(row as int),
                forall|k: int| i <= k < count ==> #[trigger] self@.columns[k] == source.columns[k],
                forall|k: int| 0 <= k < i ==> #[trigger] other@.columns[k] == target.columns[k].push(values[k]),
                forall|k: int| i <= k < count + 1 ==> #[trigger] other@.columns[k] == target.columns[k],
            decreases at - i,
        {
            assert(source.columns[i as int].data.len() == source.entities.len());
            self.migrate_component(i, row, other, i);
            i = i + 1;
        }
        other.push(at, value);
        while i < count
            invariant
                at <= i <= count,
                count == source.columns.len(),
                source.wf(),
                row < source.rows(),
                self@.entities == source.entities,
                other@.entities == target.entities,
                self@.columns.len() == count,
                other@.columns.len() == count + 1,
                target.columns.len() == count + 1,
                values == source.row(row as int).insert(at as int, value),
                forall|k: int| 0 <= k < i ==> #[trigger] self@.columns[k] == source.columns[k].swap_remove(row as int),
                forall|k: int| i <= k < count ==> #[trigger] self@.columns[k] == source.columns[k],
                forall|k: int| 0 <= k <= i ==> #[trigger] other@.columns[k] == target.columns[k].push(values[k]),
                forall|k: int| i < k < count + 1 ==> #[trigger] other@.columns[k] == target.columns[k],
            decreases count - i,
        {
            assert(source.columns[i as int].data.len() == source.entities.len());
            self.migrate_component(i, row, other, i + 1);
            i = i + 1;
        }
        self.entities.swap_remove(row as usize);
        other.entities.push(entity);
        assert(self@ =~~= source.swap_remove(row as int));
        assert(other@ =~~= target.push_row(entity, values));
    }

    /// Moves row `row` to the end of `other`, which has one column less, and
    /// returns the value of column `at`: the columns before `at` go to the
    /// columns of the same index, the columns after `at` go one column back.
    /// The last row takes the place of row `row`; `entity` is the entity index
    /// of the row that moves.
    pub fn move_row_removing(
        &mut self,
        row: EntityId,
        entity: EntityId,
        other: &mut Archetype,
        at: usize,
    ) -> (removed: ErasedValue)
        requires
            old(self)@.wf(),
            old(other)@.wf(),
            row < old(self)@.rows(),
            at < old(self)@.columns.len(),
            old(other)@.columns.len() + 1 == old(self)@.columns.len(),
        ensures
            final(self)@ == old(self)@.swap_remove(row as int),
            final(other)@ == old(other)@.push_row(
                entity,
                old(self)@.row(row as int).remove(at as int),
            ),
            removed == old(self)@.columns[at as int].data[row as int],
    {
        let ghost source = self@;
        let ghost target = other@;
        let ghost values = source.row(row as int).remove(at as int);
        let count = self.components.len();
        let mut i: usize = 0;
        while i < at
            invariant
                i <= at < count,
                count == source.columns.len(),
                source.wf(),
                row < source.rows(),
                self@.entities == source.entities,
                other@.entities == target.entities,
                self@.columns.len() == count,
                other@.columns.len() + 1 == count,
                target.columns.len() + 1 == count,
                values == source.row(row as int).remove(at as int),
                forall|k: int| 0 <= k < i ==> #[trigger] self@.columns[k] == source.columns[k].swap_remove(row as int),
                forall|k: int| i <= k < count ==> #[trigger] self@.columns[k] == source.columns[k],
                forall|k: int| 0 <= k < i ==> #[trigger] other@.columns[k] == target.columns[k].push(values[k]),
                forall|k: int| i <= k < count - 1 ==> #[trigger] other@.columns[k] == target.columns[k],
            decreases at - i,
        {
            assert(source.columns[i as int].data.len() == source.entities.len());
            self.migrate_component(i, row, other, i);
            i = i + 1;
        }
        assert(source.columns[at as int].data.len() == source.entities.len());
        assert(self@.columns[at as int] == source.columns[at as int]);
        let removed = self.take_component(at, row);
        i = i + 1;
        while i < count
            invariant
                at < i <= count,
                count == source.columns.len(),
                source.wf(),
                row < source.rows(),
                self@.entities == source.entities,
                other@.entities == target.entities,
                self@.columns.len() == count,
                other@.columns.len() + 1 == count,
                target.columns.len() + 1 == count,
                values == source.row(row as int).remove(at as int),
                forall|k: int| 0 <= k < i ==> #[trigger] self@.columns[k] == source.columns[k].swap_remove(row as int),
                forall|k: int| i <= k < count ==> #[trigger] self@.columns[k] == source.columns[k],
                forall|k: int| 0 <= k < i - 1 ==> #[trigger] other@.columns[k] == target.columns[k].push(values[k]),
                forall|k: int| i - 1 <= k < count - 1 ==> #[trigger] other@.columns[k] == target.columns[k],
            decreases count - i,
        {
            assert(source.columns[i as int].data.len() == source.entities.len());
            self.migrate_component(i, row, other, i - 1);
            i = i + 1;
        }
        self.entities.swap_remove(row as usize);
        other.entities.push(entity);
        assert(self@ =~~= source.swap_remove(row as int));
        assert(other@ =~~= target.push_row(entity, values));
        removed
    }

    /// Shared access to the value that row `index` holds for component type
    /// `key`, which the archetype has a column for.
    pub fn value_at(&self, key: ComponentId, index: EntityId) -> (value: &ErasedValue)
        requires
            self@.wf(),
            self@.has(key),
            index < self@.rows(),
        ensures
            *value == self@.columns[self@.column_of(key)].data[index as int],
    {
        match self.find_column(key) {
            Ok(c) => {
                assert(self@.columns[c as int].data.len() == self@.entities.len());
                self.components[c].get(index)
            },
            Err(_) => {
                proof {
                    assert(false);
                }
                self.components[0].get(index)
            },
        }
    }

    /// Mutable access to the erased value that row `index` holds for component
    /// type `key`; `None` if the archetype has no column for it.
    pub fn component_mut(&mut self, key: ComponentId, index: EntityId) -> (r: Option<
        &mut ErasedValue,
    >)
        requires
            old(self)@.wf(),
            index < old(self)@.rows(),
        ensures
            old(self)@.has(key) <==> r is Some,
            r matches Some(value) ==> {
                &&& *value == old(self)@.columns[old(self)@.column_of(key)].data[index as int]
                &&& final(self)@ =~~= old(self)@.replace(
                    old(self)@.column_of(key),
                    index as int,
                    *final(value),
                )
            },
            r is None ==> final(self)@ == old(self)@,
    {
        match self.find_column(key) {
            Ok(c) => {
                assert(old(self)@.columns[c as int].data.len() == old(self)@.entities.len());
                Some(self.components[c].get_mut(index))
            },
            Err(_) => None,
        }
    }

    /// Mutable access to the component of type `T` that row `index` holds
    /// under component type `key`. Fails if the archetype has no column for
    /// `key`, or if the value in it is not a `T`.
    pub fn get_component_mut<T: 'static>(&mut self, key: ComponentId, index: EntityId) -> (r:
        Result<&mut T, EntityMissingComponent>)
        requires
            old(self)@.wf(),
            index < old(self)@.rows(),
        ensures
            r is Ok ==> old(self)@.has(key),
            r is Ok ==> exists|value: ErasedValue|
                final(self)@ =~~= old(self)@.replace(
                    old(self)@.column_of(key),
                    index as int,
                    value,
                ),
            r matches Err(e) ==> {
                &&& final(self)@ == old(self)@
                &&& e.entity_index() == old(self)@.entities[index as int]
            },
    {
        let entity = self.entities[index as usize];
        proof {
            let before = self@;
            if before.has(key) {
                crate::shape::lemma_position(before.shape(), key);
                let c = before.column_of(key);
                assert(before.columns[c].data.len() == before.entities.len());
                assert(before.replace(c, index as int, before.columns[c].data[index as int])
                    =~~= before);
            }
        }
        match self.component_mut(key, index) {
            Some(value) => match downcast_mut::<T>(value) {
                Some(component) => Ok(component),
                None => Err(EntityMissingComponent::new::<T>(entity)),
            },
            None => Err(EntityMissingComponent::new::<T>(entity)),
        }
    }
}

} // verus!
