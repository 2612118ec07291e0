use vstd::prelude::*;
use crate::components::{occupants, on_layer, World};
use crate::grid::{GridCoord, Layer};
use crate::occupancy::{lemma_occupancy_exact, EntityId, OccupancyIndex};

verus! {

/// The player reached a goal tile.
#[derive(Debug, Clone, Copy, PartialEq, Eq, Structural)]
pub struct ReachedGoal(pub EntityId);

/// The player stepped onto a trap tile.
#[derive(Debug, Clone, Copy, PartialEq, Eq, Structural)]
pub struct SteppedOnTrap(pub EntityId);

/// An AI entity stands on the player's tile.
#[derive(Debug, Clone, Copy, PartialEq, Eq, Structural)]
pub struct GetCaught(pub EntityId);

/// Result of checking a move.
#[derive(Debug, Clone, Copy, PartialEq, Eq, Structural)]
pub enum MoveCheck {
    Allow,
    Blocked,
}

/// A movement policy that can be swapped without touching the pipeline.
pub trait Rules {
    /// Whether `mover` may go from `from` to `to`, given the occupancy.
    spec fn allows(&self, occ: OccupancyIndex, mover: EntityId, from: GridCoord, to: GridCoord) -> bool;

    fn can_enter(&self, occ: &OccupancyIndex, mover: EntityId, from: GridCoord, to: GridCoord) -> (r: MoveCheck)
        requires
            occ.wf(),
        ensures
            r == (if self.allows(*occ, mover, from, to) { MoveCheck::Allow } else { MoveCheck::Blocked }),
    ;
}

/// The default policy: a cell holding anything on the Blockers or the Actors
/// layer cannot be entered.
#[derive(Debug, Clone, Copy, PartialEq, Eq, Structural)]
pub struct DefaultRules;

/// Neither the Blockers nor the Actors layer holds anything on `c`.
pub open spec fn cell_free(occ: OccupancyIndex, c: GridCoord) -> bool {
    occ.at_spec(Layer::Blockers, c).len() == 0 && occ.at_spec(Layer::Actors, c).len() == 0
}

impl Rules for DefaultRules {
    open spec fn allows(&self, occ: OccupancyIndex, mover: EntityId, from: GridCoord, to: GridCoord) -> bool {
        cell_free(occ, to)
    }

    fn can_enter(&self, occ: &OccupancyIndex, mover: EntityId, from: GridCoord, to: GridCoord) -> (r: MoveCheck) {
        if occ.is_occupied(Layer::Blockers, to) || occ.is_occupied(Layer::Actors, to) {
            MoveCheck::Blocked
        } else {
            MoveCheck::Allow
        }
    }
}

/// Some entity tagged blocking or actor stands on `c`.
pub open spec fn holds_obstacle(world: World, c: GridCoord) -> bool {
    exists|id: int|
        0 <= id < world.entities@.len() && (world.entities@[id].tags.blocking || world.entities@[id].tags.actor)
            && #[trigger] world.entities@[id].position.0 == c
}

/// With an index rebuilt from `world`, the default policy allows a move to `q`
/// exactly when no blocking or actor entity stands on `q`.
pub proof fn default_rules_allow_iff_free(world: World, occ: OccupancyIndex, mover: EntityId, p: GridCoord, q: GridCoord)
    requires
        forall|l: Layer, c: GridCoord| #[trigger] occ.at_spec(l, c) == occupants(world.entities@, l, c),
    ensures
        DefaultRules.allows(occ, mover, p, q) <==> !holds_obstacle(world, q),
{
    lemma_occupancy_exact(world, Layer::Blockers, q);
    lemma_occupancy_exact(world, Layer::Actors, q);
    let bl = occ.at_spec(Layer::Blockers, q);
    let ac = occ.at_spec(Layer::Actors, q);
    assert(bl == occupants(world.entities@, Layer::Blockers, q));
    assert(ac == occupants(world.entities@, Layer::Actors, q));
    assert(world.entities@.len() == world.entities.len());
    if holds_obstacle(world, q) {
        let id = choose|id: int|
            0 <= id < world.entities@.len() && (world.entities@[id].tags.blocking || world.entities@[id].tags.actor)
                && #[trigger] world.entities@[id].position.0 == q;
        let e = id as EntityId;
        if world.entities@[id].tags.blocking {
            assert(on_layer(world.entities@[id], Layer::Blockers));
            assert(e as int == id);
            assert(occupants(world.entities@, Layer::Blockers, q).contains(e));
        } else {
            assert(on_layer(world.entities@[id], Layer::Actors));
            assert(e as int == id);
            assert(occupants(world.entities@, Layer::Actors, q).contains(e));
        }
    }
    if !cell_free(occ, q) {
        if bl.len() > 0 {
            assert(bl.contains(bl[0]));
            let e = bl[0];
            assert(world.entities@[e as int].position.0 == q);
        } else {
            assert(ac.contains(ac[0]));
            let e = ac[0];
            assert(world.entities@[e as int].position.0 == q);
        }
    }
}

} // verus!
