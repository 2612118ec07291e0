use vstd::prelude::*;
use crate::components::{EntityState, PendingIntent, Position, Tags, World};
use crate::grid::GridCoord;
use crate::intents::Intent;

verus! {

/// A door of a level definition.
#[derive(Debug, Clone, Copy, PartialEq, Eq, Structural)]
pub struct DoorSpec {
    pub x: i32,
    pub y: i32,
    pub locked: bool,
    pub key_id: i32,
}

/// An enemy of a level definition.
#[derive(Debug, Clone)]
pub struct EnemySpec {
    pub x: i32,
    pub y: i32,
    pub kind: String,
}

/// A level definition: grid extent, optional seed, the player's start and the
/// cells of walls, goals, traps, doors and enemies.
#[derive(Debug, Clone)]
pub struct Level {
    pub name: Option<String>,
    pub width: i32,
    pub height: i32,
    pub seed: Option<u64>,
    pub player_start: GridCoord,
    pub walls: Vec<GridCoord>,
    pub goals: Vec<GridCoord>,
    pub traps: Vec<GridCoord>,
    pub doors: Vec<DoorSpec>,
    pub enemies: Vec<EnemySpec>,
}

pub open spec fn no_tags() -> Tags {
    Tags { ai: false, blocking: false, actor: false, goal: false, trap: false, door: false }
}

pub open spec fn player_tags() -> Tags {
    Tags { actor: true, ..no_tags() }
}

pub open spec fn wall_tags() -> Tags {
    Tags { blocking: true, ..no_tags() }
}

pub open spec fn goal_tags() -> Tags {
    Tags { goal: true, ..no_tags() }
}

pub open spec fn trap_tags() -> Tags {
    Tags { trap: true, ..no_tags() }
}

pub open spec fn door_tags() -> Tags {
    Tags { door: true, blocking: true, ..no_tags() }
}

pub open spec fn enemy_tags() -> Tags {
    Tags { actor: true, ai: true, blocking: true, ..no_tags() }
}

/// A fresh entity on `c` with the given tags and a `Wait` intent.
pub open spec fn spawned(c: GridCoord, tags: Tags) -> EntityState {
    EntityState { position: Position(c), pending: PendingIntent(Intent::Wait), tags }
}

pub open spec fn spawned_all(cells: Seq<GridCoord>, tags: Tags) -> Seq<EntityState> {
    cells.map_values(|c: GridCoord| spawned(c, tags))
}

/// The entities of a level, in spawn order: the player, then walls, goals,
/// traps, doors and enemies, each group in the order the level lists it.
pub open spec fn level_entities(level: Level) -> Seq<EntityState> {
    seq![spawned(level.player_start, player_tags())]
        + spawned_all(level.walls@, wall_tags())
        + spawned_all(level.goals@, goal_tags())
        + spawned_all(level.traps@, trap_tags())
        + spawned_all(level.doors@.map_values(|d: DoorSpec| GridCoord { x: d.x, y: d.y }), door_tags())
        + spawned_all(level.enemies@.map_values(|e: EnemySpec| GridCoord { x: e.x, y: e.y }), enemy_tags())
}

fn make_tags(ai: bool, blocking: bool, actor: bool, goal: bool, trap: bool, door: bool) -> (r: Tags)
    ensures
        r == (Tags { ai, blocking, actor, goal, trap, door }),
{
    Tags { ai, blocking, actor, goal, trap, door }
}

fn spawn_all(out: &mut Vec<EntityState>, cells: &Vec<GridCoord>, tags: Tags)
    ensures
        final(out)@ == old(out)@ + spawned_all(cells@, tags),
{
    let mut i: usize = 0;
    while i < cells.len()
        invariant
            i <= cells@.len(),
            out@ == old(out)@ + spawned_all(cells@.subrange(0, i as int), tags),
        decreases cells@.len() - i,
    {
        out.push(EntityState { position: Position(cells[i]), pending: PendingIntent(Intent::Wait), tags });
        i += 1;
        assert(spawned_all(cells@.subrange(0, i as int), tags) =~= spawned_all(cells@.subrange(0, i - 1), tags).push(
            spawned(cells@[i - 1], tags),
        ));
    }
    assert(cells@.subrange(0, i as int) =~= cells@);
}

fn door_cells(doors: &Vec<DoorSpec>) -> (r: Vec<GridCoord>)
    ensures
        r@ == doors@.map_values(|d: DoorSpec| GridCoord { x: d.x, y: d.y }),
{
    let mut r: Vec<GridCoord> = Vec::new();
    let mut i: usize = 0;
    while i < doors.len()
        invariant
            i <= doors@.len(),
            r@ == doors@.subrange(0, i as int).map_values(|d: DoorSpec| GridCoord { x: d.x, y: d.y }),
        decreases doors@.len() - i,
    {
        r.push(GridCoord { x: doors[i].x, y: doors[i].y });
        i += 1;
        assert(r@ =~= doors@.subrange(0, i as int).map_values(|d: DoorSpec| GridCoord { x: d.x, y: d.y }));
    }
    assert(doors@.subrange(0, i as int) =~= doors@);
    r
}

fn enemy_cells(enemies: &Vec<EnemySpec>) -> (r: Vec<GridCoord>)
    ensures
        r@ == enemies@.map_values(|e: EnemySpec| GridCoord { x: e.x, y: e.y }),
{
    let mut r: Vec<GridCoord> = Vec::new();
    let mut i: usize = 0;
    while i < enemies.len()
        invariant
            i <= enemies@.len(),
            r@ == enemies@.subrange(0, i as int).map_values(|e: EnemySpec| GridCoord { x: e.x, y: e.y }),
        decreases enemies@.len() - i,
    {
        r.push(GridCoord { x: enemies[i].x, y: enemies[i].y });
        i += 1;
        assert(r@ =~= enemies@.subrange(0, i as int).map_values(|e: EnemySpec| GridCoord { x: e.x, y: e.y }));
    }
    assert(enemies@.subrange(0, i as int) =~= enemies@);
    r
}

/// Builds the world of a level: the player (an actor) with id 0, then walls
/// (blocking), goals, traps, doors (blocking) and enemies (AI, actor,
/// blocking); every intent starts as `Wait`.
pub fn spawn_level(level: &Level) -> (r: World)
    ensures
        r.wf(),
        r.player == 0,
        r.width == level.width,
        r.height == level.height,
        r.entities@ == level_entities(*level),
{
    let mut es: Vec<EntityState> = Vec::new();
    es.push(EntityState {
        position: Position(level.player_start),
        pending: PendingIntent(Intent::Wait),
        tags: make_tags(false, false, true, false, false, false),
    });
    spawn_all(&mut es, &level.walls, make_tags(false, true, false, false, false, false));
    spawn_all(&mut es, &level.goals, make_tags(false, false, false, true, false, false));
    spawn_all(&mut es, &level.traps, make_tags(false, false, false, false, true, false));
    let doors = door_cells(&level.doors);
    spawn_all(&mut es, &doors, make_tags(false, true, false, false, false, true));
    let enemies = enemy_cells(&level.enemies);
    spawn_all(&mut es, &enemies, make_tags(true, true, true, false, false, false));
    World { entities: es, player: 0, width: level.width, height: level.height }
}

} // verus!
