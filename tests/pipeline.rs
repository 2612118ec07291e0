use rand::rngs::StdRng;
use rand::SeedableRng;
use rust_grid_engine::components::World;
use rust_grid_engine::engine::Engine;
use rust_grid_engine::grid::{Dir, GridCoord};
use rust_grid_engine::intents::{AiConfig, InputEvent, Intent};
use rust_grid_engine::map::{spawn_level, DoorSpec, EnemySpec, Level};
use rust_grid_engine::replay::{RecordedInput, Replay};
use rust_grid_engine::rules::DefaultRules;

fn c(x: i32, y: i32) -> GridCoord {
    GridCoord::new(x, y)
}

fn open_level(width: i32, height: i32, player: GridCoord) -> Level {
    Level {
        name: None,
        width,
        height,
        seed: None,
        player_start: player,
        walls: Vec::new(),
        goals: Vec::new(),
        traps: Vec::new(),
        doors: Vec::new(),
        enemies: Vec::new(),
    }
}

fn enemy(x: i32, y: i32) -> EnemySpec {
    EnemySpec { x, y, kind: "chaser".to_string() }
}

fn player_pos(world: &World) -> GridCoord {
    world.entities[world.player].position.0
}

#[derive(Debug, Clone, PartialEq, Eq)]
struct Snapshot {
    turn: u64,
    positions: Vec<GridCoord>,
    goal: bool,
    trap: bool,
    caught: bool,
}

fn run_replay_and_capture(level: &Level, replay: &Replay) -> Vec<Snapshot> {
    run_replay_with(level, replay, AiConfig::new())
}

fn run_replay_with(level: &Level, replay: &Replay, cfg: AiConfig) -> Vec<Snapshot> {
    let mut engine = Engine::new(spawn_level(level), DefaultRules, 0);
    engine.set_ai_config(cfg);
    engine.start_replay(replay.clone());
    let mut snaps = Vec::new();
    for _ in 0..200 {
        if engine.active.is_done() {
            break;
        }
        if let Some(ev) = engine.replay_step() {
            snaps.push(Snapshot {
                turn: engine.turn.0,
                positions: engine.world.entities.iter().map(|e| e.position.0).collect(),
                goal: ev.reached_goal.is_some(),
                trap: ev.stepped_on_trap.is_some(),
                caught: ev.caught.is_some(),
            });
        }
    }
    snaps
}

fn chase_level() -> Level {
    let mut level = open_level(8, 6, c(1, 1));
    level.walls = vec![c(3, 0), c(3, 1), c(3, 2), c(5, 4)];
    level.goals = vec![c(7, 5)];
    level.traps = vec![c(2, 4)];
    level.doors = vec![DoorSpec { x: 6, y: 1, locked: true, key_id: 1 }];
    level.enemies = vec![enemy(7, 0), enemy(0, 5)];
    level
}

fn moves(turns: &[(u64, InputEvent)]) -> Vec<RecordedInput> {
    turns.iter().map(|&(turn, input)| RecordedInput { turn, input }).collect()
}

#[test]
fn replay_is_deterministic_twice() {
    let replay = Replay {
        seed: 12345,
        inputs: moves(&[
            (0, InputEvent::Move(Dir::Up)),
            (1, InputEvent::Move(Dir::Up)),
            (2, InputEvent::Move(Dir::Right)),
            (3, InputEvent::Move(Dir::Up)),
            (4, InputEvent::Move(Dir::Right)),
            (5, InputEvent::Move(Dir::Right)),
            (6, InputEvent::Move(Dir::Down)),
            (7, InputEvent::Move(Dir::Right)),
        ]),
    };
    let level = chase_level();
    let a = run_replay_and_capture(&level, &replay);
    let b = run_replay_and_capture(&level, &replay);
    assert!(!a.is_empty());
    assert_eq!(a, b);
}

#[test]
fn random_steps_are_reproducible_from_the_seed() {
    let level = chase_level();
    let run = |seed: u64| {
        let mut engine = Engine::new(spawn_level(&level), DefaultRules, seed);
        engine.set_ai_config(AiConfig { random_numerator: 1, random_denominator: 2 });
        let mut trail = Vec::new();
        for _ in 0..12 {
            engine.apply_input(InputEvent::Interact);
            engine.tick();
            trail.push(engine.world.entities.iter().map(|e| e.position.0).collect::<Vec<_>>());
        }
        trail
    };
    assert_eq!(run(7), run(7));
    assert_eq!(run(99), run(99));
}

#[test]
fn scenario_single_recorded_move_right() {
    let level = open_level(3, 3, c(1, 1));
    let mut engine = Engine::new(spawn_level(&level), DefaultRules, 42);
    engine.start_replay(Replay { seed: 42, inputs: moves(&[(0, InputEvent::Move(Dir::Right))]) });
    let ev = engine.replay_step();
    assert!(ev.is_some());
    assert_eq!(player_pos(&engine.world), c(2, 1));
    assert_eq!(engine.turn.0, 1);
    assert!(engine.active.is_done());
}

#[test]
fn scenario_ai_first_step_towards_player() {
    let mut level = open_level(6, 3, c(3, 0));
    level.enemies = vec![enemy(0, 0)];
    let mut engine = Engine::new(spawn_level(&level), DefaultRules, 3);
    engine.set_ai_config(AiConfig { random_numerator: 0, random_denominator: 10 });
    assert!(engine.apply_input(InputEvent::Interact));
    let ev = engine.tick().expect("interact runs the tick");
    assert_eq!(engine.world.entities[1].position.0, c(1, 0));
    assert_eq!(player_pos(&engine.world), c(3, 0));
    assert_eq!(engine.turn.0, 0);
    assert!(ev.caught.is_none());
}

#[test]
fn scenario_goal_and_trap_fire_together() {
    let mut level = open_level(4, 4, c(1, 1));
    level.goals = vec![c(2, 1)];
    level.traps = vec![c(2, 1)];
    let mut engine = Engine::new(spawn_level(&level), DefaultRules, 0);
    assert!(engine.apply_input(InputEvent::Move(Dir::Right)));
    let ev = engine.tick().expect("a move runs the tick");
    assert_eq!(ev.reached_goal.map(|g| g.0), Some(0));
    assert_eq!(ev.stepped_on_trap.map(|t| t.0), Some(0));
    assert!(ev.caught.is_none());
}

#[test]
fn goal_alone_fires_only_goal() {
    let mut level = open_level(4, 4, c(1, 1));
    level.goals = vec![c(1, 2)];
    level.traps = vec![c(3, 3)];
    let mut engine = Engine::new(spawn_level(&level), DefaultRules, 0);
    engine.apply_input(InputEvent::Move(Dir::Up));
    let ev = engine.tick().unwrap();
    assert!(ev.reached_goal.is_some());
    assert!(ev.stepped_on_trap.is_none());
}

#[test]
fn turn_counts_only_accepted_moves() {
    let mut level = open_level(5, 5, c(1, 1));
    level.walls = vec![c(2, 1)];
    let mut engine = Engine::new(spawn_level(&level), DefaultRules, 0);

    // Blocked move: degraded to Wait, no position change, no turn.
    engine.apply_input(InputEvent::Move(Dir::Right));
    assert!(engine.tick().is_some());
    assert_eq!(player_pos(&engine.world), c(1, 1));
    assert_eq!(engine.turn.0, 0);

    // Interact: tick runs, no turn.
    engine.apply_input(InputEvent::Interact);
    assert!(engine.tick().is_some());
    assert_eq!(engine.turn.0, 0);

    // Nothing pending: tick skipped.
    assert!(engine.tick().is_none());
    assert_eq!(engine.turn.0, 0);

    // Accepted move.
    engine.apply_input(InputEvent::Move(Dir::Up));
    assert!(engine.tick().is_some());
    assert_eq!(player_pos(&engine.world), c(1, 2));
    assert_eq!(engine.turn.0, 1);
}

#[test]
fn move_into_enemy_is_blocked() {
    let mut level = open_level(5, 5, c(1, 1));
    level.enemies = vec![enemy(1, 2)];
    let mut engine = Engine::new(spawn_level(&level), DefaultRules, 0);
    engine.set_ai_config(AiConfig { random_numerator: 0, random_denominator: 1 });
    engine.apply_input(InputEvent::Move(Dir::Up));
    engine.tick();
    assert_eq!(player_pos(&engine.world), c(1, 1));
    assert_eq!(engine.turn.0, 0);
}

#[test]
fn closed_door_blocks_player() {
    let mut level = open_level(5, 5, c(1, 1));
    level.doors = vec![DoorSpec { x: 0, y: 1, locked: false, key_id: 0 }];
    let mut engine = Engine::new(spawn_level(&level), DefaultRules, 0);
    engine.apply_input(InputEvent::Move(Dir::Left));
    engine.tick();
    assert_eq!(player_pos(&engine.world), c(1, 1));
}

#[test]
fn intents_reset_after_tick() {
    let mut level = open_level(5, 5, c(1, 1));
    level.enemies = vec![enemy(4, 4)];
    let mut engine = Engine::new(spawn_level(&level), DefaultRules, 0);
    engine.apply_input(InputEvent::Move(Dir::Up));
    engine.tick();
    assert!(engine.world.entities.iter().all(|e| e.pending.0 == Intent::Wait));
}

#[test]
fn live_input_is_idle_guarded_and_logged() {
    let level = open_level(5, 5, c(2, 2));
    let mut engine = Engine::new(spawn_level(&level), DefaultRules, 0);
    assert!(engine.apply_input(InputEvent::Move(Dir::Left)));
    assert!(!engine.apply_input(InputEvent::Move(Dir::Up)));
    assert_eq!(engine.world.entities[0].pending.0, Intent::Move(Dir::Left));
    assert_eq!(engine.log.0, vec![RecordedInput { turn: 0, input: InputEvent::Move(Dir::Left) }]);
    engine.tick();
    assert!(engine.apply_input(InputEvent::Move(Dir::Up)));
    assert_eq!(engine.log.0[1], RecordedInput { turn: 1, input: InputEvent::Move(Dir::Up) });
}

#[test]
fn live_input_ignored_during_replay() {
    let level = open_level(5, 5, c(2, 2));
    let mut engine = Engine::new(spawn_level(&level), DefaultRules, 0);
    engine.start_replay(Replay { seed: 1, inputs: Vec::new() });
    assert!(!engine.apply_input(InputEvent::Move(Dir::Left)));
    assert!(engine.log.0.is_empty());
    engine.stop_replay();
    assert!(!engine.is_replay_active());
    assert!(engine.apply_input(InputEvent::Move(Dir::Left)));
}

#[test]
fn replay_batch_respects_idle_guard() {
    let level = open_level(5, 5, c(2, 2));
    let mut engine = Engine::new(spawn_level(&level), DefaultRules, 0);
    engine.start_replay(Replay {
        seed: 9,
        inputs: moves(&[
            (0, InputEvent::Wait),
            (0, InputEvent::Move(Dir::Down)),
            (0, InputEvent::Move(Dir::Left)),
            (1, InputEvent::Move(Dir::Up)),
        ]),
    });
    engine.feed_replay();
    assert_eq!(engine.active.cursor, 3);
    assert_eq!(engine.world.entities[0].pending.0, Intent::Move(Dir::Down));
    // Not idle: nothing more is consumed.
    engine.feed_replay();
    assert_eq!(engine.active.cursor, 3);
    engine.tick();
    assert_eq!(player_pos(&engine.world), c(2, 1));
    engine.replay_step();
    assert_eq!(player_pos(&engine.world), c(2, 2));
    assert_eq!(engine.turn.0, 2);
    assert!(engine.active.is_done());
}

#[test]
fn start_replay_reseeds_and_resets() {
    let level = open_level(5, 5, c(2, 2));
    let mut engine = Engine::new(spawn_level(&level), DefaultRules, 0);
    engine.apply_input(InputEvent::Move(Dir::Up));
    engine.tick();
    assert_eq!(engine.turn.0, 1);
    engine.start_replay(Replay { seed: 77, inputs: moves(&[(0, InputEvent::Interact)]) });
    assert_eq!(engine.seed, 77);
    assert_eq!(engine.turn.0, 0);
    assert!(engine.log.0.is_empty());
    assert!(engine.is_replay_active());
    assert!(!engine.active.is_done());
}

#[test]
fn finish_run_packages_seed_and_log() {
    let level = open_level(5, 5, c(2, 2));
    let mut engine = Engine::new(spawn_level(&level), DefaultRules, 5);
    engine.apply_input(InputEvent::Move(Dir::Up));
    engine.tick();
    engine.apply_input(InputEvent::Interact);
    let replay = engine.finish_run();
    assert_eq!(replay.seed, 5);
    assert_eq!(
        replay.inputs,
        moves(&[(0, InputEvent::Move(Dir::Up)), (1, InputEvent::Interact)])
    );
    assert!(engine.log.0.is_empty());
}

#[test]
fn reset_with_seed_clears_run_state() {
    let level = open_level(5, 5, c(2, 2));
    let mut engine = Engine::new(spawn_level(&level), DefaultRules, 5);
    engine.apply_input(InputEvent::Move(Dir::Up));
    engine.tick();
    engine.reset_with_seed(31);
    assert_eq!(engine.seed, 31);
    assert_eq!(engine.turn.0, 0);
    assert!(engine.log.0.is_empty());
    assert!(engine.reset_run());
    assert_eq!(engine.turn.0, 0);
}

#[test]
fn ai_catches_player_when_both_enter_same_cell() {
    let mut level = open_level(5, 1, c(0, 0));
    level.enemies = vec![enemy(2, 0)];
    let mut engine = Engine::new(spawn_level(&level), DefaultRules, 0);
    engine.set_ai_config(AiConfig { random_numerator: 0, random_denominator: 1 });
    engine.apply_input(InputEvent::Move(Dir::Right));
    let ev = engine.tick().unwrap();
    assert_eq!(player_pos(&engine.world), c(1, 0));
    assert_eq!(engine.world.entities[1].position.0, c(1, 0));
    assert_eq!(ev.caught.map(|g| g.0), Some(0));
}

#[test]
fn always_random_ai_takes_a_legal_step() {
    let mut level = open_level(3, 3, c(0, 0));
    level.walls = vec![c(1, 2), c(2, 1)];
    level.enemies = vec![enemy(1, 1)];
    for seed in 0..20u64 {
        let mut engine = Engine::new(spawn_level(&level), DefaultRules, seed);
        engine.set_ai_config(AiConfig { random_numerator: 1, random_denominator: 1 });
        engine.apply_input(InputEvent::Interact);
        engine.tick();
        let ai = engine.world.entities[3].position.0;
        assert!(ai == c(1, 0) || ai == c(0, 1), "seed {seed}: {ai:?}");
    }
}

#[test]
fn replay_matches_golden() {
    let mut level = open_level(5, 3, c(0, 0));
    level.enemies = vec![enemy(4, 2)];
    let replay = Replay {
        seed: 2024,
        inputs: moves(&[
            (0, InputEvent::Move(Dir::Right)),
            (1, InputEvent::Move(Dir::Right)),
            (2, InputEvent::Move(Dir::Up)),
        ]),
    };
    let planned_only = AiConfig { random_numerator: 0, random_denominator: 10 };
    let actual = run_replay_with(&level, &replay, planned_only);
    let snap = |turn: u64, player: GridCoord, ai: GridCoord, caught: bool| Snapshot {
        turn,
        positions: vec![player, ai],
        goal: false,
        trap: false,
        caught,
    };
    let expected = vec![
        snap(1, c(1, 0), c(3, 2), false),
        snap(2, c(2, 0), c(2, 2), false),
        snap(3, c(2, 1), c(2, 1), true),
    ];
    assert_eq!(actual, expected);
}

#[test]
fn replay_start_and_reset_reseed_the_stream() {
    let level = open_level(4, 4, c(1, 1));
    let mut engine = Engine::new(spawn_level(&level), DefaultRules, 8);
    assert_eq!(engine.rng.0, StdRng::seed_from_u64(8));
    engine.start_replay(Replay { seed: 123, inputs: Vec::new() });
    assert_eq!(engine.rng.0, StdRng::seed_from_u64(123));
    engine.reset_with_seed(55);
    assert_eq!(engine.rng.0, StdRng::seed_from_u64(55));
    assert!(engine.reset_run());
    assert_eq!(engine.rng.0, StdRng::seed_from_u64(engine.seed));
}
