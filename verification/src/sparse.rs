//! A sparse array of component values indexed by component type.

use vstd::prelude::*;
use crate::entity::ComponentType;
use crate::state::bundle_map;

verus! {

/// The values held by a sparse array, by component type.
pub open spec fn held<C>(cells: Seq<Option<C>>) -> Map<ComponentType, C> {
    Map::new(
        |k: ComponentType| (k.0 as int) < cells.len() && cells[k.0 as int].is_some(),
        |k: ComponentType| cells[k.0 as int].unwrap(),
    )
}

/// Lengthens the array with empty cells until it has a cell for `kind`.
pub fn reserve<C>(cells: &mut Vec<Option<C>>, kind: ComponentType)
    ensures
        final(cells)@.len() > kind.0,
        held(final(cells)@) == held(old(cells)@),
{
    while cells.len() <= kind.0 as usize
        invariant
            held(cells@) == held(old(cells)@),
        decreases kind.0 + 1 - cells.len(),
    {
        let ghost before = cells@;
        cells.push(None);
        assert(held(cells@) =~= held(before));
    }
}

/// Stores `value` under `kind` and returns the value it replaces, if any.
pub fn put<C>(cells: &mut Vec<Option<C>>, kind: ComponentType, value: C) -> (previous: Option<C>)
    ensures
        held(final(cells)@) == held(old(cells)@).insert(kind, value),
        previous == if held(old(cells)@).contains_key(kind) {
            Some(held(old(cells)@)[kind])
        } else {
            None
        },
{
    reserve(cells, kind);
    let ghost before = cells@;
    let previous = cells[kind.0 as usize].take();
    cells[kind.0 as usize] = Some(value);
    assert(held(cells@) =~= held(before).insert(kind, value));
    previous
}

/// Removes and returns the value stored under `kind`, if any.
pub fn take<C>(cells: &mut Vec<Option<C>>, kind: ComponentType) -> (previous: Option<C>)
    ensures
        held(final(cells)@) == held(old(cells)@).remove(kind),
        previous == if held(old(cells)@).contains_key(kind) {
            Some(held(old(cells)@)[kind])
        } else {
            None
        },
{
    if (kind.0 as usize) < cells.len() {
        let ghost before = cells@;
        let previous = cells[kind.0 as usize].take();
        assert(held(cells@) =~= held(before).remove(kind));
        previous
    } else {
        assert(held(cells@) =~= held(cells@).remove(kind));
        None
    }
}

/// The value stored under `kind`, if any.
pub fn peek<C>(cells: &Vec<Option<C>>, kind: ComponentType) -> (found: Option<&C>)
    ensures
        found.is_some() == held(cells@).contains_key(kind),
        found.is_some() ==> *found.unwrap() == held(cells@)[kind],
{
    if (kind.0 as usize) < cells.len() {
        cells[kind.0 as usize].as_ref()
    } else {
        None
    }
}

/// Exclusive access to the value stored under `kind`, if any.
pub fn peek_mut<C>(cells: &mut Vec<Option<C>>, kind: ComponentType) -> (found: Option<&mut C>)
    ensures
        found.is_some() == held(old(cells)@).contains_key(kind),
        found.is_some() ==> *found.unwrap() == held(old(cells)@)[kind],
        found.is_some() ==> held(final(cells)@) =~= held(old(cells)@).insert(
            kind,
            *final(found.unwrap()),
        ),
        found.is_none() ==> held(final(cells)@) =~= held(old(cells)@),
{
    if (kind.0 as usize) < cells.len() {
        cells[kind.0 as usize].as_mut()
    } else {
        None
    }
}

/// Whether a value is stored under `kind`.
pub fn holds<C>(cells: &Vec<Option<C>>, kind: ComponentType) -> (b: bool)
    ensures
        b == held(cells@).contains_key(kind),
{
    (kind.0 as usize) < cells.len() && cells[kind.0 as usize].is_some()
}

/// Builds the sparse array of a bundle: a later entry of a type replaces an
/// earlier one.
pub fn collect<C>(bundle: Vec<(ComponentType, C)>) -> (cells: Vec<Option<C>>)
    ensures
        held(cells@) == bundle_map(bundle@),
{
    let mut rest = bundle;
    let mut cells: Vec<Option<C>> = Vec::new();
    assert(held(cells@) =~= Map::empty());
    assert(bundle_map(rest@).union_prefer_right(held(cells@)) =~= bundle_map(bundle@));
    while rest.len() > 0
        invariant
            bundle_map(rest@).union_prefer_right(held(cells@)) == bundle_map(bundle@),
        decreases rest.len(),
    {
        let ghost before = rest@;
        let ghost had = held(cells@);
        let (kind, value) = rest.pop().unwrap();
        assert(rest@ == before.drop_last());
        if !holds(&cells, kind) {
            put(&mut cells, kind, value);
        }
        assert(bundle_map(rest@).union_prefer_right(held(cells@)) =~= bundle_map(before).union_prefer_right(
            had,
        ));
    }
    assert(bundle_map(rest@).union_prefer_right(held(cells@)) =~= held(cells@));
    cells
}

} // verus!
