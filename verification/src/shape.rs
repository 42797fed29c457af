//! Shapes: the sorted lists of component types that identify archetypes.

use vstd::prelude::*;
use vstd::bytes::spec_u64_to_le_bytes;
use vstd::bytes::u64_to_le_bytes;
use vstd::std_specs::hash::DefaultHasherAdditionalSpecFns;
use std::collections::hash_map::DefaultHasher;
use core::hash::Hasher;
use crate::component::ComponentId;

verus! {

/// A shape is a list of component types in strictly ascending order, so it
/// names each type at most once and two shapes with the same types are the
/// same list.
pub open spec fn is_shape(types: Seq<ComponentId>) -> bool {
    forall|i: int, j: int| 0 <= i < j < types.len() ==> types[i] < types[j]
}

/// Where `key` stands, or would stand, in the shape `types`: the number of its
/// types that are smaller than `key`.
pub open spec fn position(types: Seq<ComponentId>, key: ComponentId) -> int
    decreases types.len(),
{
    if types.len() == 0 {
        0
    } else if types.last() < key {
        types.len() as int
    } else {
        position(types.drop_last(), key)
    }
}

/// The shape `types` with `key` added in its place.
pub open spec fn with_type(types: Seq<ComponentId>, key: ComponentId) -> Seq<ComponentId> {
    types.insert(position(types, key), key)
}

/// The shape `types` without `key`.
pub open spec fn without_type(types: Seq<ComponentId>, key: ComponentId) -> Seq<ComponentId> {
    types.remove(position(types, key))
}

/// What `position` means for a shape: everything before it is smaller than
/// `key`, everything from it on is at least `key`, and `key` is in the shape
/// exactly if it stands at its position.
pub proof fn lemma_position(types: Seq<ComponentId>, key: ComponentId)
    requires
        is_shape(types),
    ensures
        0 <= position(types, key) <= types.len(),
        forall|i: int| 0 <= i < position(types, key) ==> types[i] < key,
        forall|i: int| position(types, key) <= i < types.len() ==> types[i] >= key,
        types.contains(key) <==> (position(types, key) < types.len() && types[position(
            types,
            key,
        )] == key),
    decreases types.len(),
{
    if types.len() == 0 {
    } else if types.last() < key {
        assert forall|i: int| 0 <= i < types.len() implies types[i] < key by {
            if i < types.len() - 1 {
                assert(types[i] < types[types.len() - 1]);
            }
        }
    } else {
        let front = types.drop_last();
        lemma_position(front, key);
        let p = position(front, key);
        assert forall|i: int| 0 <= i < p implies types[i] < key by {
            assert(front[i] == types[i]);
        }
        assert forall|i: int| p <= i < types.len() implies types[i] >= key by {
            if i < front.len() {
                assert(front[i] == types[i]);
            }
        }
        if types.contains(key) {
            let i = choose|i: int| 0 <= i < types.len() && types[i] == key;
            assert(i >= p);
            if i > p {
                assert(types[p] < types[i]);
            }
        }
    }
}

/// The position of `key` is the one index that splits the shape around it.
pub proof fn lemma_position_is(types: Seq<ComponentId>, key: ComponentId, at: int)
    requires
        is_shape(types),
        0 <= at <= types.len(),
        forall|i: int| 0 <= i < at ==> types[i] < key,
        forall|i: int| at <= i < types.len() ==> types[i] >= key,
    ensures
        position(types, key) == at,
{
    lemma_position(types, key);
    let p = position(types, key);
    if p < at {
        assert(types[p] < key);
    } else if at < p {
        assert(types[at] < key);
    }
}

/// Adding a type that a shape lacks gives a shape that holds it at its
/// position, and taking it away again gives the first shape back.
pub proof fn lemma_with_type(types: Seq<ComponentId>, key: ComponentId)
    requires
        is_shape(types),
        !types.contains(key),
    ensures
        is_shape(with_type(types, key)),
        with_type(types, key).contains(key),
        position(with_type(types, key), key) == position(types, key),
        without_type(with_type(types, key), key) == types,
{
    lemma_position(types, key);
    let p = position(types, key);
    let more = with_type(types, key);
    assert forall|i: int, j: int| 0 <= i < j < more.len() implies more[i] < more[j] by {
        if j < p {
            assert(more[i] == types[i] && more[j] == types[j]);
        } else if j == p {
            assert(more[i] == types[i]);
        } else if i < p {
            assert(more[i] == types[i] && more[j] == types[j - 1]);
        } else if i == p {
            assert(more[j] == types[j - 1]);
            assert(types[j - 1] >= key);
            assert(types[j - 1] != key);
        } else {
            assert(more[i] == types[i - 1] && more[j] == types[j - 1]);
        }
    }
    assert(more[p] == key);
    assert forall|i: int| 0 <= i < p implies more[i] < key by {
        assert(more[i] == types[i]);
    }
    assert forall|i: int| p <= i < more.len() implies more[i] >= key by {
        if i > p {
            assert(more[i] == types[i - 1]);
        }
    }
    lemma_position_is(more, key, p);
    assert(more.remove(p) =~= types);
}

/// Taking away a type that a shape holds gives a shape that lacks it, and
/// adding it again gives the first shape back.
pub proof fn lemma_without_type(types: Seq<ComponentId>, key: ComponentId)
    requires
        is_shape(types),
        types.contains(key),
    ensures
        is_shape(without_type(types, key)),
        !without_type(types, key).contains(key),
        position(without_type(types, key), key) == position(types, key),
        with_type(without_type(types, key), key) == types,
{
    lemma_position(types, key);
    let p = position(types, key);
    let less = without_type(types, key);
    assert forall|i: int, j: int| 0 <= i < j < less.len() implies less[i] < less[j] by {
        let oi = if i < p { i } else { i + 1 };
        let oj = if j < p { j } else { j + 1 };
        assert(less[i] == types[oi] && less[j] == types[oj]);
    }
    assert forall|i: int| 0 <= i < p implies less[i] < key by {
        assert(less[i] == types[i]);
    }
    assert forall|i: int| p <= i < less.len() implies less[i] >= key by {
        assert(less[i] == types[i + 1]);
        assert(types[p] < types[i + 1]);
    }
    lemma_position_is(less, key, p);
    lemma_position(less, key);
    if less.contains(key) {
        assert(less[p] == types[p + 1]);
        assert(types[p] < types[p + 1]);
    }
    assert(less.insert(p, key) =~= types);
}

/// Adding a type to a shape leaves the other types in it, in their order:
/// those above the new type stand one place further.
pub proof fn lemma_with_type_other(types: Seq<ComponentId>, key: ComponentId, other: ComponentId)
    requires
        is_shape(types),
        !types.contains(key),
        other != key,
    ensures
        with_type(types, key).contains(other) <==> types.contains(other),
        types.contains(other) ==> position(with_type(types, key), other) == position(types, other)
            + if key < other {
            1int
        } else {
            0int
        },
{
    lemma_position(types, key);
    lemma_with_type(types, key);
    let at = position(types, key);
    let more = with_type(types, key);
    if more.contains(other) {
        let i = choose|i: int| 0 <= i < more.len() && more[i] == other;
        if i < at {
            assert(types[i] == other);
        } else {
            assert(types[i - 1] == other);
        }
    }
    if types.contains(other) {
        lemma_position(types, other);
        let i = position(types, other);
        let j = if key < other {
            i + 1
        } else {
            i
        };
        if i < at {
            assert(more[i] == other);
        } else {
            assert(more[i + 1] == other);
            assert(types[i] >= key);
        }
        if key < other && i < at {
            assert(types[i] < key);
        }
        assert(more[j] == other);
        assert forall|k: int| 0 <= k < j implies more[k] < other by {
            assert(more[k] < more[j]);
        }
        assert forall|k: int| j <= k < more.len() implies more[k] >= other by {
            if k > j {
                assert(more[j] < more[k]);
            }
        }
        lemma_position_is(more, other, j);
    }
}

/// Taking a type from a shape leaves the other types in it, in their order:
/// those above the type taken stand one place back.
pub proof fn lemma_without_type_other(types: Seq<ComponentId>, key: ComponentId, other: ComponentId)
    requires
        is_shape(types),
        types.contains(key),
        other != key,
    ensures
        without_type(types, key).contains(other) <==> types.contains(other),
        types.contains(other) ==> position(without_type(types, key), other) == position(
            types,
            other,
        ) - if key < other {
            1int
        } else {
            0int
        },
{
    lemma_without_type(types, key);
    let less = without_type(types, key);
    lemma_with_type_other(less, key, other);
}

/// Two shapes that hold the same types are the same shape.
pub proof fn lemma_shape_unique(a: Seq<ComponentId>, b: Seq<ComponentId>)
    requires
        is_shape(a),
        is_shape(b),
        forall|t: ComponentId| a.contains(t) <==> b.contains(t),
    ensures
        a == b,
    decreases a.len(),
{
    if a.len() == 0 {
        if b.len() > 0 {
            assert(b.contains(b[0]));
        }
        assert(a =~= b);
    } else {
        let top = a.last();
        assert(a.contains(top));
        assert(b.contains(top));
        let k = choose|k: int| 0 <= k < b.len() && b[k] == top;
        if k < b.len() - 1 {
            let bigger = b.last();
            assert(b[k] < bigger);
            assert(b.contains(bigger));
            let m = choose|m: int| 0 <= m < a.len() && a[m] == bigger;
            if m < a.len() - 1 {
                assert(a[m] < a[a.len() - 1]);
            }
        }
        let a0 = a.drop_last();
        let b0 = b.drop_last();
        assert forall|t: ComponentId| a0.contains(t) <==> b0.contains(t) by {
            if a0.contains(t) {
                let i = choose|i: int| 0 <= i < a0.len() && a0[i] == t;
                assert(a[i] == t);
                assert(a[i] < a[a.len() - 1]);
                assert(a.contains(t));
                let j = choose|j: int| 0 <= j < b.len() && b[j] == t;
                assert(b0[j] == t);
            }
            if b0.contains(t) {
                let j = choose|j: int| 0 <= j < b0.len() && b0[j] == t;
                assert(b[j] == t);
                assert(b[j] < b[b.len() - 1]);
                assert(b.contains(t));
                let i = choose|i: int| 0 <= i < a.len() && a[i] == t;
                assert(a0[i] == t);
            }
        }
        lemma_shape_unique(a0, b0);
        assert(a =~= a0.push(top));
        assert(b =~= b0.push(top));
    }
}

/// The byte strings that hashing the shape `types` feeds to the hasher: each
/// type as a 64-bit number, low byte first.
pub open spec fn shape_bytes(types: Seq<ComponentId>) -> Seq<Seq<u8>> {
    Seq::new(types.len(), |i: int| spec_u64_to_le_bytes(types[i] as u64))
}

/// The identifier of the shape `types`: what the standard library's default
/// hasher makes of its bytes.
pub open spec fn shape_id(types: Seq<ComponentId>) -> u64 {
    DefaultHasher::spec_finish(shape_bytes(types))
}

/// Hashes a list of component types to the identifier under which the world
/// files the archetype of that shape.
pub fn calculate_bundle_id(types: &[ComponentId]) -> (id: u64)
    ensures
        id == shape_id(types@),
{
    let mut hasher = DefaultHasher::new();
    let mut i: usize = 0;
    while i < types.len()
        invariant
            i <= types.len(),
            hasher@ == shape_bytes(types@.take(i as int)),
        decreases types.len() - i,
    {
        let bytes = u64_to_le_bytes(types[i] as u64);
        hasher.write(bytes.as_slice());
        assert(hasher@ =~= shape_bytes(types@.take(i + 1)));
        i = i + 1;
    }
    assert(types@.take(i as int) =~= types@);
    hasher.finish()
}

/// Looks `key` up in the shape `types` by bisection. `Ok` holds its index,
/// `Err` the index at which it would have to be inserted.
pub fn search(types: &[ComponentId], key: ComponentId) -> (r: Result<usize, usize>)
    requires
        is_shape(types@),
    ensures
        types@.contains(key) <==> r is Ok,
        r matches Ok(i) ==> i == position(types@, key) && i < types@.len() && types@[i as int]
            == key,
        r matches Err(i) ==> i == position(types@, key) && i <= types@.len(),
{
    let mut low: usize = 0;
    let mut high: usize = types.len();
    while low < high
        invariant
            0 <= low <= high <= types.len(),
            is_shape(types@),
            forall|i: int| 0 <= i < low ==> types@[i] < key,
            forall|i: int| high <= i < types@.len() ==> types@[i] >= key,
        decreases high - low,
    {
        let middle = low + (high - low) / 2;
        if types[middle] < key {
            assert forall|i: int| 0 <= i < middle + 1 implies types@[i] < key by {
                if i < middle {
                    assert(types@[i] < types@[middle as int]);
                }
            }
            low = middle + 1;
        } else {
            assert forall|i: int| middle <= i < types@.len() implies types@[i] >= key by {
                if i > middle {
                    assert(types@[middle as int] < types@[i]);
                }
            }
            high = middle;
        }
    }
    proof {
        lemma_position_is(types@, key, low as int);
        lemma_position(types@, key);
    }
    if low < types.len() && types[low] == key {
        Ok(low)
    } else {
        Err(low)
    }
}

} // verus!
