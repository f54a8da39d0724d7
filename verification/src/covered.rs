//! The covers that are still on the board, kept in the engine's hash map.

use crate::coordinates::Coordinates;
use bevy::ecs::entity::Entity;
use bevy::utils::HashMap;
use vstd::prelude::*;

verus! {

/// `bevy::ecs::entity::Entity`, the engine's handle of the object that shows
/// a cover. The board stores and returns it and never looks inside.
#[verifier::external_type_specification]
#[verifier::external_body]
pub struct ExEntity(Entity);

/// For every covered cell the entity of its cover, in a
/// `bevy::utils::HashMap` keyed by the cell's `(x, y)`. The map is the
/// engine's alias of `hashbrown::HashMap`; what it does is stated on the
/// functions below and believed, not proved.
#[verifier::external_body]
#[derive(Debug)]
pub struct CoveredTiles {
    map: HashMap<(u16, u16), Entity>,
}

/// What the hash map holds: the covered cells, each with its entity.
pub uninterp spec fn covered_entries(tiles: CoveredTiles) -> Map<Coordinates, Entity>;

impl CoveredTiles {
    /// `HashMap::with_capacity`: a map without entries, with room for
    /// `capacity` of them.
    #[verifier::external_body]
    pub(crate) fn with_capacity(capacity: usize) -> (tiles: CoveredTiles)
        ensures
            covered_entries(tiles).dom() == Set::<Coordinates>::empty(),
    {
        CoveredTiles { map: HashMap::with_capacity(capacity) }
    }

    /// `HashMap::len`: the number of entries.
    #[verifier::external_body]
    pub(crate) fn len(&self) -> (n: usize)
        ensures
            n == covered_entries(*self).len(),
    {
        self.map.len()
    }

    /// `HashMap::get`: the entity stored for the cell, if there is one.
    #[verifier::external_body]
    pub(crate) fn get(&self, coords: &Coordinates) -> (found: Option<&Entity>)
        ensures
            found == if covered_entries(*self).contains_key(*coords) {
                Some(&covered_entries(*self)[*coords])
            } else {
                None
            },
    {
        self.map.get(&(coords.x, coords.y))
    }

    /// `HashMap::insert`: stores the entity for the cell and returns the one
    /// that was stored for it before, if any.
    #[verifier::external_body]
    pub(crate) fn insert(&mut self, coords: Coordinates, entity: Entity) -> (before: Option<Entity>)
        ensures
            covered_entries(*final(self)) == covered_entries(*old(self)).insert(coords, entity),
            before == if covered_entries(*old(self)).contains_key(coords) {
                Some(covered_entries(*old(self))[coords])
            } else {
                None
            },
    {
        self.map.insert((coords.x, coords.y), entity)
    }

    /// `HashMap::remove`: takes the cell's entry out and returns its entity,
    /// if there was one.
    #[verifier::external_body]
    pub(crate) fn remove(&mut self, coords: &Coordinates) -> (taken: Option<Entity>)
        ensures
            covered_entries(*final(self)) == covered_entries(*old(self)).remove(*coords),
            taken == if covered_entries(*old(self)).contains_key(*coords) {
                Some(covered_entries(*old(self))[*coords])
            } else {
                None
            },
    {
        self.map.remove(&(coords.x, coords.y))
    }
}

} // verus!
