use vstd::prelude::*;
use crate::grid::{GridCoord, Layer};
use crate::intents::Intent;
use crate::occupancy::EntityId;

verus! {

/// The committed cell of an entity.
#[derive(Debug, Clone, Copy, PartialEq, Eq, Structural)]
pub struct Position(pub GridCoord);

/// An entity's intent between the input/planning phases and commit.
#[derive(Debug, Clone, Copy, PartialEq, Eq, Structural)]
pub struct PendingIntent(pub Intent);

/// The tags an entity may carry besides being the player.
#[derive(Debug, Clone, Copy, PartialEq, Eq, Structural)]
pub struct Tags {
    pub ai: bool,
    pub blocking: bool,
    pub actor: bool,
    pub goal: bool,
    pub trap: bool,
    pub door: bool,
}

/// One entity of the world store with its facets.
#[derive(Debug, Clone, Copy, PartialEq, Eq, Structural)]
pub struct EntityState {
    pub position: Position,
    pub pending: PendingIntent,
    pub tags: Tags,
}

/// The world store: entities indexed by id, the player's id, and the grid's
/// extent used by path planning.
pub struct World {
    pub entities: Vec<EntityState>,
    pub player: EntityId,
    pub width: i32,
    pub height: i32,
}

/// Whether an entity belongs in the occupancy index under `layer`.
pub open spec fn on_layer(e: EntityState, layer: Layer) -> bool {
    match layer {
        Layer::Blockers => e.tags.blocking,
        Layer::Actors => e.tags.actor,
        _ => false,
    }
}

/// The ids among the first `n` entities that belong on `(layer, c)`, ascending.
pub open spec fn occupants_upto(es: Seq<EntityState>, n: int, layer: Layer, c: GridCoord) -> Seq<EntityId>
    decreases n,
{
    if n <= 0 {
        Seq::empty()
    } else {
        let prev = occupants_upto(es, n - 1, layer, c);
        if on_layer(es[n - 1], layer) && es[n - 1].position.0 == c {
            prev.push((n - 1) as EntityId)
        } else {
            prev
        }
    }
}

/// The ids of all entities that belong on `(layer, c)`, ascending.
pub open spec fn occupants(es: Seq<EntityState>, layer: Layer, c: GridCoord) -> Seq<EntityId> {
    occupants_upto(es, es.len() as int, layer, c)
}

impl World {
    /// The player's id names an entity.
    pub open spec fn wf(&self) -> bool {
        self.player < self.entities@.len()
    }

    pub open spec fn player_state(&self) -> EntityState {
        self.entities@[self.player as int]
    }
}

} // verus!
