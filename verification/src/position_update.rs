//! Which reported position an entity takes over, and whether it does.

use crate::entity::EntityId;
use crate::position::Position;
use std::collections::HashMap;
use vstd::prelude::*;

verus! {

broadcast use vstd::std_specs::hash::group_hash_axioms;

/// An entity that a player steers, and the entity that shadows it, if any.
#[derive(Clone, Copy, Debug, PartialEq, Eq)]
pub struct Player {
    pub ghost_entity: Option<EntityId>,
}

/// The position reported for an entity: the one reported under its own
/// identifier, or else the one handed on to it as the ghost of a player.
pub open spec fn update_of(
    ghost_update: Option<(EntityId, Position)>,
    entity: EntityId,
    external_id: Option<u16>,
    updates: Map<u16, Position>,
) -> Option<Position> {
    if external_id.is_some() && updates.contains_key(external_id.unwrap()) {
        Some(updates[external_id.unwrap()])
    } else {
        match ghost_update {
            Some((shadow, update)) if shadow == entity => Some(update),
            _ => None,
        }
    }
}

/// Goes through the entities of one tick and decides, for each, whether it
/// takes over the position that was reported for it.
pub struct PositionUpdateSystem {
    ghost_update: Option<(EntityId, Position)>,
}

impl PositionUpdateSystem {
    /// The position that the last player with a ghost handed on, and the
    /// ghost that it is for.
    pub closed spec fn ghost_update(&self) -> Option<(EntityId, Position)> {
        self.ghost_update
    }

    /// The start of a tick: nothing is handed on yet.
    pub fn new() -> (system: Self)
        ensures
            system.ghost_update().is_none(),
    {
        PositionUpdateSystem { ghost_update: None }
    }

    /// The position reported for `entity`, which goes by `external_id`
    /// outside.
    pub fn update_for(
        &self,
        entity: EntityId,
        external_id: Option<u16>,
        updates: &HashMap<u16, Position>,
    ) -> (update: Option<Position>)
        ensures
            update == update_of(self.ghost_update(), entity, external_id, updates@),
    {
        let own = match external_id {
            Some(id) => match updates.get(&id) {
                Some(update) => Some(*update),
                None => None,
            },
            None => None,
        };
        if own.is_some() {
            return own;
        }
        match self.ghost_update {
            Some((shadow, update)) => if shadow == entity {
                Some(update)
            } else {
                None
            },
            None => None,
        }
    }

    /// Whether an entity takes over the position `update` that was reported
    /// for it. An entity that no player steers always does. One that a
    /// player steers does only if the offset is noticeable; and if it has a
    /// ghost, the position is handed on to the ghost.
    pub fn fix_position(
        &mut self,
        update: Position,
        player: Option<Player>,
        is_offset_noticeable: bool,
    ) -> (fix: bool)
        ensures
            fix == (player.is_none() || is_offset_noticeable),
            final(self).ghost_update() == (match player {
                Some(Player { ghost_entity: Some(shadow) }) => Some((shadow, update)),
                _ => old(self).ghost_update(),
            }),
    {
        match player {
            Some(player) => {
                if let Some(shadow) = player.ghost_entity {
                    self.ghost_update = Some((shadow, update));
                }
                is_offset_noticeable
            },
            None => true,
        }
    }
}

} // verus!
