use rust_grid_engine::engine::TurnNumber;
use rust_grid_engine::schedule::commit_changes;
use rust_grid_engine::components::{EntityState, PendingIntent, Position, Tags, World};
use rust_grid_engine::grid::{grid_step_to_dir, in_bounds, manhattan, neighbours_4, neighbours_8, Dir, GridCoord, Layer};
use rust_grid_engine::intents::{ai_intent, legal_steps, ChasePolicy, Intent};
use rust_grid_engine::map::{spawn_level, DoorSpec, EnemySpec, Level};
use rust_grid_engine::occupancy::{rebuild_occupancy, OccupancyIndex};
use rust_grid_engine::pathfinding::astar;
use rust_grid_engine::rules::{DefaultRules, MoveCheck, Rules};
use rust_grid_engine::schedule::{cleanup_turn, player_has_actions, validate_moves};

fn c(x: i32, y: i32) -> GridCoord {
    GridCoord::new(x, y)
}

fn tags() -> Tags {
    Tags { ai: false, blocking: false, actor: false, goal: false, trap: false, door: false }
}

fn ent(p: GridCoord, t: Tags) -> EntityState {
    EntityState { position: Position(p), pending: PendingIntent(Intent::Wait), tags: t }
}

fn policy_for(world: &World, target: GridCoord) -> ChasePolicy {
    let mut occ = OccupancyIndex::new();
    rebuild_occupancy(world, &mut occ);
    ChasePolicy { occ, target }
}

fn walled_world(width: i32, height: i32, walls: &[GridCoord]) -> World {
    let mut entities = vec![ent(c(0, 0), Tags { actor: true, ..tags() })];
    for &w in walls {
        entities.push(ent(w, Tags { blocking: true, ..tags() }));
    }
    World { entities, player: 0, width, height }
}

fn assert_adjacent_chain(path: &[GridCoord]) {
    for w in path.windows(2) {
        assert_eq!(manhattan(w[0], w[1]), 1, "{:?} -> {:?}", w[0], w[1]);
    }
}

#[test]
fn dir_step_moves_one_cell() {
    let p = c(4, -2);
    assert_eq!(Dir::Up.step(p), c(4, -1));
    assert_eq!(Dir::Down.step(p), c(4, -3));
    assert_eq!(Dir::Left.step(p), c(3, -2));
    assert_eq!(Dir::Right.step(p), c(5, -2));
}

#[test]
fn checked_step_stops_at_integer_edge() {
    assert_eq!(Dir::Right.checked_step(c(i32::MAX, 0)), None);
    assert_eq!(Dir::Down.checked_step(c(0, i32::MIN)), None);
    assert_eq!(Dir::Up.checked_step(c(0, 0)), Some(c(0, 1)));
}

#[test]
fn neighbours_in_fixed_order() {
    assert_eq!(neighbours_4(c(1, 1)), [c(2, 1), c(0, 1), c(1, 2), c(1, 0)]);
    let n8 = neighbours_8(c(0, 0));
    assert_eq!(n8[..4], [c(1, 0), c(-1, 0), c(0, 1), c(0, -1)]);
    assert_eq!(n8[4..], [c(1, 1), c(-1, 1), c(1, -1), c(-1, -1)]);
}

#[test]
fn bounds_and_distance() {
    assert!(in_bounds(c(0, 0), 3, 3));
    assert!(in_bounds(c(2, 2), 3, 3));
    assert!(!in_bounds(c(3, 0), 3, 3));
    assert!(!in_bounds(c(0, -1), 3, 3));
    assert_eq!(manhattan(c(-2, 5), c(3, 1)), 9);
    assert_eq!(manhattan(c(1, 1), c(1, 1)), 0);
}

#[test]
fn step_to_dir_round_trip() {
    let p = c(5, 5);
    for d in [Dir::Up, Dir::Down, Dir::Left, Dir::Right] {
        assert_eq!(grid_step_to_dir(p, d.step(p)), Some(d));
    }
    assert_eq!(grid_step_to_dir(p, c(6, 6)), None);
    assert_eq!(grid_step_to_dir(p, p), None);
}

#[test]
fn occupancy_insert_keeps_order_per_cell() {
    let mut occ = OccupancyIndex::new();
    assert!(occ.at(Layer::Actors, c(1, 1)).is_empty());
    occ.insert(Layer::Actors, c(1, 1), 7);
    occ.insert(Layer::Actors, c(1, 1), 3);
    occ.insert(Layer::Blockers, c(1, 1), 5);
    for i in 0..6 {
        occ.insert(Layer::Actors, c(1, 1), 10 + i);
    }
    assert_eq!(occ.at(Layer::Actors, c(1, 1)), vec![7, 3, 10, 11, 12, 13, 14, 15]);
    assert_eq!(occ.at(Layer::Blockers, c(1, 1)), vec![5]);
    assert!(occ.is_occupied(Layer::Blockers, c(1, 1)));
    assert!(!occ.is_occupied(Layer::Terrain, c(1, 1)));
    assert!(!occ.is_occupied(Layer::Actors, c(2, 1)));
    occ.clear();
    assert!(occ.at(Layer::Actors, c(1, 1)).is_empty());
}

#[test]
fn rebuild_lists_tagged_entities_in_id_order() {
    let world = World {
        entities: vec![
            ent(c(2, 2), Tags { actor: true, ..tags() }),
            ent(c(1, 1), Tags { blocking: true, ..tags() }),
            ent(c(2, 2), Tags { goal: true, ..tags() }),
            ent(c(2, 2), Tags { actor: true, blocking: true, ai: true, ..tags() }),
            ent(c(1, 1), Tags { blocking: true, ..tags() }),
        ],
        player: 0,
        width: 4,
        height: 4,
    };
    let mut occ = OccupancyIndex::new();
    occ.insert(Layer::Actors, c(0, 0), 99);
    rebuild_occupancy(&world, &mut occ);
    assert_eq!(occ.at(Layer::Actors, c(2, 2)), vec![0, 3]);
    assert_eq!(occ.at(Layer::Blockers, c(2, 2)), vec![3]);
    assert_eq!(occ.at(Layer::Blockers, c(1, 1)), vec![1, 4]);
    assert!(occ.at(Layer::Actors, c(0, 0)).is_empty());
    assert!(occ.at(Layer::Items, c(2, 2)).is_empty());
    assert!(occ.at(Layer::Terrain, c(2, 2)).is_empty());
}

#[test]
fn default_rules_block_blockers_and_actors() {
    let world = World {
        entities: vec![
            ent(c(0, 0), Tags { actor: true, ..tags() }),
            ent(c(1, 0), Tags { blocking: true, ..tags() }),
            ent(c(0, 1), Tags { actor: true, ..tags() }),
            ent(c(1, 1), Tags { goal: true, trap: true, ..tags() }),
        ],
        player: 0,
        width: 4,
        height: 4,
    };
    let mut occ = OccupancyIndex::new();
    rebuild_occupancy(&world, &mut occ);
    let rules = DefaultRules;
    assert_eq!(rules.can_enter(&occ, 0, c(0, 0), c(1, 0)), MoveCheck::Blocked);
    assert_eq!(rules.can_enter(&occ, 0, c(0, 0), c(0, 1)), MoveCheck::Blocked);
    assert_eq!(rules.can_enter(&occ, 0, c(0, 0), c(1, 1)), MoveCheck::Allow);
    assert_eq!(rules.can_enter(&occ, 0, c(0, 0), c(-1, 0)), MoveCheck::Allow);
}

#[test]
fn validate_degrades_only_illegal_actor_moves() {
    let mut world = World {
        entities: vec![
            ent(c(0, 0), Tags { actor: true, ..tags() }),
            ent(c(1, 0), Tags { blocking: true, ..tags() }),
            ent(c(3, 3), Tags { actor: true, ..tags() }),
        ],
        player: 0,
        width: 4,
        height: 4,
    };
    world.entities[0].pending = PendingIntent(Intent::Move(Dir::Right));
    world.entities[2].pending = PendingIntent(Intent::Move(Dir::Up));
    let mut occ = OccupancyIndex::new();
    rebuild_occupancy(&world, &mut occ);
    validate_moves(&mut world, &occ, &DefaultRules);
    assert_eq!(world.entities[0].pending.0, Intent::Wait);
    assert_eq!(world.entities[2].pending.0, Intent::Move(Dir::Up));
    assert!(player_has_actions(&world) == false);
    cleanup_turn(&mut world);
    assert_eq!(world.entities[2].pending.0, Intent::Wait);
}

#[test]
fn astar_same_cell_is_single_step_path() {
    let world = walled_world(3, 3, &[]);
    let policy = policy_for(&world, c(5, 5));
    assert_eq!(astar(c(1, 1), c(1, 1), &policy, 3, 3), Some(vec![c(1, 1)]));
    assert_eq!(astar(c(9, 9), c(9, 9), &policy, 3, 3), Some(vec![c(9, 9)]));
}

#[test]
fn astar_walled_off_goal_has_no_path() {
    let world = walled_world(5, 5, &[c(2, 1), c(1, 2), c(3, 2), c(2, 3)]);
    let policy = policy_for(&world, c(4, 4));
    assert_eq!(astar(c(0, 0), c(2, 2), &policy, 5, 5), None);
}

#[test]
fn astar_path_is_adjacent_and_shortest_around_wall() {
    let world = walled_world(5, 5, &[c(2, 0), c(2, 1), c(2, 2), c(2, 3)]);
    let policy = policy_for(&world, c(4, 0));
    let path = astar(c(0, 0), c(4, 0), &policy, 5, 5).expect("a path exists");
    assert_eq!(path.first(), Some(&c(0, 0)));
    assert_eq!(path.last(), Some(&c(4, 0)));
    assert_adjacent_chain(&path);
    assert!(path.iter().all(|p| p.x != 2 || p.y == 4));
    // Down to row 4, across, and back: 4 + 4 + 4 steps.
    assert_eq!(path.len(), 13);
}

#[test]
fn astar_straight_line_prefers_lower_x_on_ties() {
    let world = walled_world(4, 4, &[]);
    let policy = policy_for(&world, c(3, 3));
    let path = astar(c(0, 0), c(2, 2), &policy, 4, 4).unwrap();
    assert_eq!(path.len(), 5);
    assert_adjacent_chain(&path);
    assert_eq!(path, vec![c(0, 0), c(0, 1), c(0, 2), c(1, 2), c(2, 2)]);
}

#[test]
fn astar_outside_grid_has_no_path() {
    let world = walled_world(3, 3, &[]);
    let policy = policy_for(&world, c(0, 0));
    assert_eq!(astar(c(0, 0), c(5, 5), &policy, 3, 3), None);
    assert_eq!(astar(c(0, 0), c(1, 1), &policy, 0, 3), None);
}

#[test]
fn legal_steps_skip_blocked_but_allow_target() {
    let world = World {
        entities: vec![
            ent(c(1, 1), Tags { actor: true, ..tags() }),
            ent(c(1, 2), Tags { blocking: true, ..tags() }),
            ent(c(0, 1), Tags { actor: true, ..tags() }),
        ],
        player: 0,
        width: 3,
        height: 3,
    };
    let mut occ = OccupancyIndex::new();
    rebuild_occupancy(&world, &mut occ);
    assert_eq!(legal_steps(&occ, c(1, 1), c(5, 5)), vec![Dir::Down, Dir::Right]);
    assert_eq!(legal_steps(&occ, c(1, 1), c(0, 1)), vec![Dir::Down, Dir::Left, Dir::Right]);
}

#[test]
fn ai_intent_follows_path_or_pick() {
    let level = Level {
        name: Some("open".to_string()),
        width: 6,
        height: 3,
        seed: Some(1),
        player_start: c(3, 0),
        walls: vec![],
        goals: vec![],
        traps: vec![],
        doors: vec![],
        enemies: vec![EnemySpec { x: 0, y: 0, kind: "chaser".to_string() }],
    };
    let world = spawn_level(&level);
    let policy = policy_for(&world, c(3, 0));
    assert_eq!(ai_intent(&policy, c(0, 0), 6, 3, None), Intent::Move(Dir::Right));
    assert_eq!(ai_intent(&policy, c(3, 0), 6, 3, None), Intent::Wait);
    // Random steps look only at occupancy: all four cells around (0,0) are free.
    assert_eq!(ai_intent(&policy, c(0, 0), 6, 3, Some(0)), Intent::Move(Dir::Up));
    assert_eq!(ai_intent(&policy, c(0, 0), 6, 3, Some(1)), Intent::Move(Dir::Down));
    assert_eq!(ai_intent(&policy, c(0, 0), 6, 3, Some(2)), Intent::Move(Dir::Left));
    // An index past the legal steps falls back to the planned path.
    assert_eq!(ai_intent(&policy, c(0, 0), 6, 3, Some(4)), Intent::Move(Dir::Right));
}

#[test]
fn ai_waits_when_enclosed() {
    let world = walled_world(5, 5, &[c(3, 2), c(1, 2), c(2, 3), c(2, 1)]);
    let policy = policy_for(&world, c(0, 0));
    assert_eq!(ai_intent(&policy, c(2, 2), 5, 5, None), Intent::Wait);
}

#[test]
fn spawn_level_orders_and_tags_entities() {
    let level = Level {
        name: None,
        width: 7,
        height: 5,
        seed: None,
        player_start: c(1, 1),
        walls: vec![c(0, 0)],
        goals: vec![c(6, 4)],
        traps: vec![c(3, 3)],
        doors: vec![DoorSpec { x: 2, y: 2, locked: true, key_id: 4 }],
        enemies: vec![EnemySpec { x: 5, y: 1, kind: "chaser".to_string() }],
    };
    let world = spawn_level(&level);
    assert_eq!(world.player, 0);
    assert_eq!((world.width, world.height), (7, 5));
    let pos: Vec<GridCoord> = world.entities.iter().map(|e| e.position.0).collect();
    assert_eq!(pos, vec![c(1, 1), c(0, 0), c(6, 4), c(3, 3), c(2, 2), c(5, 1)]);
    assert!(world.entities[0].tags.actor && !world.entities[0].tags.blocking);
    assert!(world.entities[1].tags.blocking);
    assert!(world.entities[2].tags.goal);
    assert!(world.entities[3].tags.trap);
    assert!(world.entities[4].tags.door && world.entities[4].tags.blocking);
    let e = world.entities[5].tags;
    assert!(e.ai && e.actor && e.blocking);
    assert!(world.entities.iter().all(|e| e.pending.0 == Intent::Wait));
}


fn bfs_len(width: i32, height: i32, walls: &[GridCoord], s: GridCoord, g: GridCoord) -> Option<usize> {
    let mut dist = vec![usize::MAX; (width * height) as usize];
    let idx = |p: GridCoord| (p.y * width + p.x) as usize;
    let mut queue = std::collections::VecDeque::new();
    dist[idx(s)] = 0;
    queue.push_back(s);
    while let Some(p) = queue.pop_front() {
        if p == g {
            return Some(dist[idx(p)] + 1);
        }
        for n in neighbours_4(p) {
            if in_bounds(n, width, height) && !walls.contains(&n) && dist[idx(n)] == usize::MAX {
                dist[idx(n)] = dist[idx(p)] + 1;
                queue.push_back(n);
            }
        }
    }
    None
}

#[test]
fn astar_lengths_match_breadth_first_search() {
    let walls = [c(1, 0), c(1, 1), c(1, 2), c(1, 3), c(3, 6), c(3, 5), c(3, 4), c(3, 3), c(3, 2), c(5, 1), c(5, 2), c(4, 2)];
    let world = walled_world(7, 7, &walls);
    for gx in 0..7 {
        for gy in 0..7 {
            let g = c(gx, gy);
            if walls.contains(&g) {
                continue;
            }
            let policy = policy_for(&world, c(-5, -5));
            let path = astar(c(0, 0), g, &policy, 7, 7);
            let expected = bfs_len(7, 7, &walls, c(0, 0), g);
            assert_eq!(path.as_ref().map(|p| p.len()), expected, "goal {g:?}");
            if let Some(p) = path {
                assert_adjacent_chain(&p);
                assert!(p.iter().skip(1).all(|q| !walls.contains(q)));
            }
        }
    }
}

#[test]
fn commit_applies_moves_and_resets_intents() {
    let mut world = World {
        entities: vec![
            ent(c(1, 1), Tags { actor: true, ..tags() }),
            ent(c(3, 3), Tags { actor: true, ai: true, ..tags() }),
            ent(c(0, 0), Tags { blocking: true, ..tags() }),
        ],
        player: 0,
        width: 5,
        height: 5,
    };
    world.entities[0].pending = PendingIntent(Intent::Move(Dir::Left));
    world.entities[1].pending = PendingIntent(Intent::Interact);
    let mut turn = TurnNumber(4);
    commit_changes(&mut world, &mut turn);
    assert_eq!(turn.0, 5);
    assert_eq!(world.entities[0].position.0, c(0, 1));
    assert_eq!(world.entities[1].position.0, c(3, 3));
    assert!(world.entities.iter().all(|e| e.pending.0 == Intent::Wait));
}

#[test]
fn astar_open_grid_goes_straight() {
    let world = walled_world(10, 10, &[]);
    let policy = policy_for(&world, c(3, 0));
    assert_eq!(astar(c(0, 0), c(3, 0), &policy, 10, 10), Some(vec![c(0, 0), c(1, 0), c(2, 0), c(3, 0)]));
}
