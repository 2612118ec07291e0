use vstd::prelude::*;
use crate::components::{EntityState, PendingIntent, Position, World};
use crate::engine::TurnNumber;
use crate::grid::{can_step, step_spec, GridCoord};
use crate::intents::Intent;
use crate::occupancy::{EntityId, OccupancyIndex};
use crate::rules::{GetCaught, MoveCheck, ReachedGoal, Rules, SteppedOnTrap};

verus! {

/// The phases of one tick, in the order they run.
#[derive(Debug, Clone, Copy, PartialEq, Eq, Structural)]
pub enum TurnSystems {
    /// Convert input to intents.
    Input,
    /// AI planning to intents.
    AiPlan,
    /// Occupancy rebuild and move validation.
    Resolve,
    /// The only phase that changes positions.
    Commit,
    /// Reset intents and drain events.
    Cleanup,
}

/// The one-shot events of a tick.
#[derive(Debug, Clone, Copy, PartialEq, Eq, Structural)]
pub struct TickEvents {
    pub reached_goal: Option<ReachedGoal>,
    pub stepped_on_trap: Option<SteppedOnTrap>,
    pub caught: Option<GetCaught>,
}

/// What validation leaves of entity `id`'s intent: an actor's move survives
/// only if the target cell is representable and the rules allow it.
pub open spec fn validated_intent<R: Rules>(rules: R, occ: OccupancyIndex, id: EntityId, e: EntityState) -> Intent {
    match e.pending.0 {
        Intent::Move(d) => {
            if !e.tags.actor {
                Intent::Move(d)
            } else if can_step(d, e.position.0) && rules.allows(occ, id, e.position.0, step_spec(d, e.position.0)) {
                Intent::Move(d)
            } else {
                Intent::Wait
            }
        },
        other => other,
    }
}

/// The position after commit: a move takes its step, anything else stays.
pub open spec fn committed_position(e: EntityState) -> GridCoord {
    match e.pending.0 {
        Intent::Move(d) => if can_step(d, e.position.0) { step_spec(d, e.position.0) } else { e.position.0 },
        _ => e.position.0,
    }
}

/// Whether the entity's pending intent makes it move at commit.
pub open spec fn moves(e: EntityState) -> bool {
    match e.pending.0 {
        Intent::Move(d) => can_step(d, e.position.0),
        _ => false,
    }
}

/// Some goal-tagged entity stands on `c`.
pub open spec fn goal_at(es: Seq<EntityState>, c: GridCoord) -> bool {
    exists|i: int| 0 <= i < es.len() && es[i].tags.goal && #[trigger] es[i].position.0 == c
}

/// Some trap-tagged entity stands on `c`.
pub open spec fn trap_at(es: Seq<EntityState>, c: GridCoord) -> bool {
    exists|i: int| 0 <= i < es.len() && es[i].tags.trap && #[trigger] es[i].position.0 == c
}

/// Some AI entity stands on `c`.
pub open spec fn ai_at(es: Seq<EntityState>, c: GridCoord) -> bool {
    exists|i: int| 0 <= i < es.len() && es[i].tags.ai && #[trigger] es[i].position.0 == c
}

/// The events that the player's current position raises.
pub open spec fn events_for(world: World) -> TickEvents {
    let es = world.entities@;
    let at = world.player_state().position.0;
    TickEvents {
        reached_goal: if goal_at(es, at) { Some(ReachedGoal(world.player)) } else { None },
        stepped_on_trap: if trap_at(es, at) { Some(SteppedOnTrap(world.player)) } else { None },
        caught: if ai_at(es, at) { Some(GetCaught(world.player)) } else { None },
    }
}

/// Degrades every actor's illegal move to `Wait`; everything else is kept.
pub fn validate_moves<R: Rules>(world: &mut World, occ: &OccupancyIndex, rules: &R)
    requires
        occ.wf(),
    ensures
        final(world).player == old(world).player,
        final(world).width == old(world).width,
        final(world).height == old(world).height,
        final(world).entities@.len() == old(world).entities@.len(),
        forall|i: int| 0 <= i < old(world).entities@.len() ==> #[trigger] final(world).entities@[i] == (EntityState {
            pending: PendingIntent(validated_intent(*rules, *occ, i as EntityId, old(world).entities@[i])),
            ..old(world).entities@[i]
        }),
{
    let n = world.entities.len();
    let mut i: usize = 0;
    while i < n
        invariant
            occ.wf(),
            n == world.entities@.len(),
            n == old(world).entities@.len(),
            i <= n,
            world.player == old(world).player,
            world.width == old(world).width,
            world.height == old(world).height,
            forall|j: int| 0 <= j < i ==> #[trigger] world.entities@[j] == (EntityState {
                pending: PendingIntent(validated_intent(*rules, *occ, j as EntityId, old(world).entities@[j])),
                ..old(world).entities@[j]
            }),
            forall|j: int| i <= j < n ==> #[trigger] world.entities@[j] == old(world).entities@[j],
        decreases n - i,
    {
        let e = world.entities[i];
        if e.tags.actor {
            if let Intent::Move(d) = e.pending.0 {
                let keep = match d.checked_step(e.position.0) {
                    Some(to) => match rules.can_enter(occ, i, e.position.0, to) {
                        MoveCheck::Allow => true,
                        MoveCheck::Blocked => false,
                    },
                    None => false,
                };
                if !keep {
                    world.entities.set(i, EntityState { pending: PendingIntent(Intent::Wait), ..e });
                }
            }
        }
        i += 1;
    }
}

/// Applies every surviving move, resets each committed intent to `Wait`,
/// and advances the turn counter by one exactly when the player moved.
pub fn commit_changes(world: &mut World, turn: &mut TurnNumber)
    requires
        old(world).wf(),
        old(turn).0 < u64::MAX,
    ensures
        final(world).player == old(world).player,
        final(world).width == old(world).width,
        final(world).height == old(world).height,
        final(world).entities@.len() == old(world).entities@.len(),
        forall|i: int| 0 <= i < old(world).entities@.len() ==> #[trigger] final(world).entities@[i] == (EntityState {
            position: Position(committed_position(old(world).entities@[i])),
            pending: PendingIntent(Intent::Wait),
            ..old(world).entities@[i]
        }),
        final(turn).0 == old(turn).0 + (if moves(old(world).player_state()) { 1int } else { 0int }),
{
    let n = world.entities.len();
    let mut player_moved = false;
    let mut i: usize = 0;
    while i < n
        invariant
            old(world).wf(),
            n == world.entities@.len(),
            n == old(world).entities@.len(),
            i <= n,
            world.player == old(world).player,
            world.width == old(world).width,
            world.height == old(world).height,
            forall|j: int| 0 <= j < i ==> #[trigger] world.entities@[j] == (EntityState {
                position: Position(committed_position(old(world).entities@[j])),
                pending: PendingIntent(Intent::Wait),
                ..old(world).entities@[j]
            }),
            forall|j: int| i <= j < n ==> #[trigger] world.entities@[j] == old(world).entities@[j],
            player_moved == (world.player < i && moves(old(world).player_state())),
        decreases n - i,
    {
        let e = world.entities[i];
        let mut pos = e.position;
        if let Intent::Move(d) = e.pending.0 {
            if let Some(to) = d.checked_step(e.position.0) {
                pos = Position(to);
                if i == world.player {
                    player_moved = true;
                }
            }
        }
        world.entities.set(i, EntityState { position: pos, pending: PendingIntent(Intent::Wait), ..e });
        i += 1;
    }
    if player_moved {
        turn.0 = turn.0 + 1;
    }
}

/// The tags that trigger detection looks for.
#[derive(Clone, Copy, PartialEq, Eq, Structural)]
enum Marker {
    Goal,
    Trap,
    Chaser,
}

/// Whether some entity carrying the marker's tag stands on `at`.
fn any_tagged_at(world: &World, at: GridCoord, which: Marker) -> (r: bool)
    ensures
        which == Marker::Goal ==> r == goal_at(world.entities@, at),
        which == Marker::Trap ==> r == trap_at(world.entities@, at),
        which == Marker::Chaser ==> r == ai_at(world.entities@, at),
{
    let n = world.entities.len();
    let mut i: usize = 0;
    while i < n
        invariant
            n == world.entities@.len(),
            i <= n,
            forall|j: int| 0 <= j < i ==> #[trigger] world.entities@[j].position.0 == at ==> {
                &&& which == Marker::Goal ==> !world.entities@[j].tags.goal
                &&& which == Marker::Trap ==> !world.entities@[j].tags.trap
                &&& which == Marker::Chaser ==> !world.entities@[j].tags.ai
            },
        decreases n - i,
    {
        let e = world.entities[i];
        let tagged = match which {
            Marker::Goal => e.tags.goal,
            Marker::Trap => e.tags.trap,
            Marker::Chaser => e.tags.ai,
        };
        if tagged && e.position.0 == at {
            assert(world.entities@[i as int].position.0 == at);
            return true;
        }
        i += 1;
    }
    false
}

/// Checks the player's position against goals, traps and AI entities; each
/// check runs on its own, so one tick can raise several events.
pub fn fire_on_enter_hooks(world: &World) -> (r: TickEvents)
    requires
        world.wf(),
    ensures
        r == events_for(*world),
{
    let player = world.player;
    let at = world.entities[player].position.0;
    let has_goal = any_tagged_at(world, at, Marker::Goal);
    let has_trap = any_tagged_at(world, at, Marker::Trap);
    let caught = any_tagged_at(world, at, Marker::Chaser);
    TickEvents {
        reached_goal: if has_goal { Some(ReachedGoal(player)) } else { None },
        stepped_on_trap: if has_trap { Some(SteppedOnTrap(player)) } else { None },
        caught: if caught { Some(GetCaught(player)) } else { None },
    }
}

/// Resets every pending intent to `Wait`.
pub fn cleanup_turn(world: &mut World)
    ensures
        final(world).player == old(world).player,
        final(world).width == old(world).width,
        final(world).height == old(world).height,
        final(world).entities@.len() == old(world).entities@.len(),
        forall|i: int| 0 <= i < old(world).entities@.len() ==> #[trigger] final(world).entities@[i] == (EntityState {
            pending: PendingIntent(Intent::Wait),
            ..old(world).entities@[i]
        }),
{
    let n = world.entities.len();
    let mut i: usize = 0;
    while i < n
        invariant
            n == world.entities@.len(),
            n == old(world).entities@.len(),
            i <= n,
            world.player == old(world).player,
            world.width == old(world).width,
            world.height == old(world).height,
            forall|j: int| 0 <= j < i ==> #[trigger] world.entities@[j] == (EntityState {
                pending: PendingIntent(Intent::Wait),
                ..old(world).entities@[j]
            }),
            forall|j: int| i <= j < n ==> #[trigger] world.entities@[j] == old(world).entities@[j],
        decreases n - i,
    {
        let e = world.entities[i];
        world.entities.set(i, EntityState { pending: PendingIntent(Intent::Wait), ..e });
        i += 1;
    }
}

/// The player's pending intent is actionable (a move or an interaction).
pub open spec fn has_actions_spec(world: World) -> bool {
    world.player_state().pending.0 != Intent::Wait
}

/// Whether the tick should run: the player has a move or an interaction pending.
pub fn player_has_actions(world: &World) -> (r: bool)
    requires
        world.wf(),
    ensures
        r == has_actions_spec(*world),
{
    match world.entities[world.player].pending.0 {
        Intent::Move(_) | Intent::Interact => true,
        Intent::Wait => false,
    }
}

} // verus!
