use vstd::prelude::*;
use crate::components::{occupants, EntityState, PendingIntent, Position, World};
use crate::grid::{can_step, step_spec, Dir, GridCoord, Layer};
use crate::intents::{ai_decision_ok, planned_draws, intent_of, intent_of_spec, occ_free, plan_intent, world_free, AiConfig, ChasePolicy, InputEvent, Intent};
use crate::occupancy::{rebuild_occupancy, EntityId, OccupancyIndex};
use crate::replay::{batch_end, dispatch, feed_replay_inputs, ActiveReplay, Replay, ReplayLog};
use crate::rng::{os_seed, seeded_stream, TurnRng};
use rand::rngs::StdRng;
use crate::rules::{default_rules_allow_iff_free, holds_obstacle, DefaultRules, Rules};
use crate::schedule::{
    ai_at, cleanup_turn, commit_changes, committed_position, events_for, goal_at, trap_at, fire_on_enter_hooks, has_actions_spec, moves,
    player_has_actions, validate_moves, validated_intent, TickEvents,
};

verus! {

/// Counts the ticks in which the player's committed intent was a move.
#[derive(Debug, Clone, Copy, PartialEq, Eq, Structural)]
pub struct TurnNumber(pub u64);

/// The stream after planning the entities `0..n` of `es` in ascending id
/// order, starting from `rng`: only AI entities draw.
pub open spec fn stream_after(es: Seq<EntityState>, n: int, target: GridCoord, cfg: AiConfig, rng: StdRng) -> StdRng
    decreases n,
{
    if n <= 0 {
        rng
    } else {
        let prev = stream_after(es, n - 1, target, cfg, rng);
        if es[n - 1].tags.ai {
            planned_draws(world_free(es), es[n - 1].position.0, target, cfg, prev).1
        } else {
            prev
        }
    }
}

/// `after` is `before` with every AI entity's intent planned from the stream
/// `rng`, AI by AI in ascending id order: positions, tags and all other
/// intents are kept, and each AI intent is the decision for the pick drawn
/// from the stream as the earlier AI entities left it (no random step when
/// the random ratio is zero).
pub open spec fn planned_ok(cfg: AiConfig, rng: StdRng, before: World, after: World) -> bool {
    let es = before.entities@;
    let target = before.player_state().position.0;
    &&& after.player == before.player
    &&& after.width == before.width
    &&& after.height == before.height
    &&& after.entities@.len() == es.len()
    &&& forall|i: int| 0 <= i < es.len() ==> {
        let a = #[trigger] after.entities@[i];
        &&& a.position == es[i].position
        &&& a.tags == es[i].tags
        &&& if es[i].tags.ai {
            &&& ai_decision_ok(world_free(es), es[i].position.0, target, before.width as int, before.height as int,
                planned_draws(world_free(es), es[i].position.0, target, cfg, stream_after(es, i, target, cfg, rng)).0,
                a.pending.0)
            &&& cfg.random_numerator == 0 ==> ai_decision_ok(world_free(es), es[i].position.0, target, before.width as int,
                before.height as int, None, a.pending.0)
        } else {
            a.pending == es[i].pending
        }
    }
}

/// Entity `i` after validation against `occ`.
pub open spec fn resolved_entity<R: Rules>(rules: R, occ: OccupancyIndex, es: Seq<EntityState>, i: int) -> EntityState {
    EntityState { pending: PendingIntent(validated_intent(rules, occ, i as EntityId, es[i])), ..es[i] }
}

/// Entity `i` at the end of a tick: validated, committed, intent reset.
pub open spec fn ticked_entity<R: Rules>(rules: R, occ: OccupancyIndex, es: Seq<EntityState>, i: int) -> EntityState {
    let v = resolved_entity(rules, occ, es, i);
    EntityState { position: Position(committed_position(v)), pending: PendingIntent(Intent::Wait), tags: v.tags }
}

/// The AI planning phase: every AI entity, in ascending id order, gets its
/// intent from a snapshot of the occupancy taken from the committed positions.
pub fn plan_ai(world: &mut World, cfg: AiConfig, rng: &mut TurnRng)
    requires
        old(world).wf(),
        cfg.wf(),
    ensures
        final(world).wf(),
        planned_ok(cfg, old(rng).0, *old(world), *final(world)),
        final(rng).0 == stream_after(old(world).entities@, old(world).entities@.len() as int,
            old(world).player_state().position.0, cfg, old(rng).0),
{
    let mut snapshot = OccupancyIndex::new();
    rebuild_occupancy(world, &mut snapshot);
    let ghost es = world.entities@;
    let ghost rng0 = rng.0;
    let target = world.entities[world.player].position.0;
    assert(occ_free(snapshot) =~= world_free(es)) by {
        assert forall|c: GridCoord| #[trigger] occ_free(snapshot)(c) == world_free(es)(c) by {
            assert(snapshot.at_spec(Layer::Blockers, c) == occupants(es, Layer::Blockers, c));
            assert(snapshot.at_spec(Layer::Actors, c) == occupants(es, Layer::Actors, c));
        };
    };
    let policy = ChasePolicy { occ: snapshot, target };
    let n = world.entities.len();
    let mut i: usize = 0;
    while i < n
        invariant
            cfg.wf(),
            policy.occ.wf(),
            policy.target == target,
            target == old(world).player_state().position.0,
            occ_free(policy.occ) == world_free(es),
            es == old(world).entities@,
            rng0 == old(rng).0,
            rng.0 == stream_after(es, i as int, target, cfg, rng0),
            n == es.len(),
            i <= n,
            world.player == old(world).player,
            world.width == old(world).width,
            world.height == old(world).height,
            world.entities@.len() == n,
            forall|j: int| i <= j < n ==> #[trigger] world.entities@[j] == es[j],
            forall|j: int| 0 <= j < i ==> {
                let a = #[trigger] world.entities@[j];
                &&& a.position == es[j].position
                &&& a.tags == es[j].tags
                &&& if es[j].tags.ai {
                    &&& ai_decision_ok(world_free(es), es[j].position.0, target, world.width as int, world.height as int,
                        planned_draws(world_free(es), es[j].position.0, target, cfg, stream_after(es, j, target, cfg, rng0)).0,
                        a.pending.0)
                    &&& cfg.random_numerator == 0 ==> ai_decision_ok(world_free(es), es[j].position.0, target, world.width as int,
                        world.height as int, None, a.pending.0)
                } else {
                    a.pending == es[j].pending
                }
            },
        decreases n - i,
    {
        let e = world.entities[i];
        assert(e == es[i as int]);
        if e.tags.ai {
            let intent = plan_intent(&policy, e.position.0, world.width, world.height, cfg, rng);
            let ghost before = world.entities@;
            world.entities.set(i, EntityState { pending: PendingIntent(intent), ..e });
            assert forall|j: int| 0 <= j < i implies #[trigger] world.entities@[j] == before[j] by {};
        }
        assert(rng.0 == stream_after(es, i as int + 1, target, cfg, rng0));
        i += 1;
    }
}

/// `b` is `a` after the replay's input phase: only the cursor and the
/// player's pending intent may change.
pub open spec fn fed<R: Rules>(a: Engine<R>, b: Engine<R>) -> bool {
    &&& b.turn == a.turn
    &&& b.active.replay == a.active.replay
    &&& b.log == a.log
    &&& b.world.player == a.world.player
    &&& b.world.entities@.len() == a.world.entities@.len()
    &&& forall|i: int| 0 <= i < a.world.entities@.len() && i != a.world.player
        ==> #[trigger] b.world.entities@[i] == a.world.entities@[i]
    &&& match a.active.replay {
        Some(rp) => if a.world.player_state().pending.0 == Intent::Wait {
            &&& b.active.cursor == batch_end(rp.inputs@, a.active.cursor as int, a.turn.0)
            &&& b.world.player_state() == (EntityState {
                pending: PendingIntent(dispatch(Intent::Wait, rp.inputs@, a.active.cursor as int,
                    b.active.cursor as int)),
                ..a.world.player_state()
            })
        } else {
            b.active.cursor == a.active.cursor && b.world.player_state() == a.world.player_state()
        },
        None => b.active.cursor == a.active.cursor && b.world.player_state() == a.world.player_state(),
    }
    &&& b.occupancy == a.occupancy
    &&& b.rng == a.rng
    &&& b.seed == a.seed
    &&& b.rules == a.rules
    &&& b.ai == a.ai
    &&& b.world.width == a.world.width
    &&& b.world.height == a.world.height
}

/// `b` is `a` after one tick that returned `r`.
pub open spec fn ticked<R: Rules>(a: Engine<R>, b: Engine<R>, r: Option<TickEvents>) -> bool {
    &&& b.rules == a.rules
    &&& b.ai == a.ai
    &&& b.seed == a.seed
    &&& b.log == a.log
    &&& b.active == a.active
    &&& b.world.player == a.world.player
    &&& b.world.width == a.world.width
    &&& b.world.height == a.world.height
    &&& (r is None) == !has_actions_spec(a.world)
    &&& r is None ==> b.world == a.world && b.turn == a.turn && b.rng == a.rng
    &&& r is Some ==> forall|l: Layer, c: GridCoord|
        #[trigger] b.occupancy.at_spec(l, c) == occupants(a.world.entities@, l, c)
    &&& r is Some ==> exists|planned: World| {
        &&& planned_ok(a.ai, a.rng.0, a.world, planned)
        &&& b.rng.0 == stream_after(a.world.entities@, a.world.entities@.len() as int, a.world.player_state().position.0,
            a.ai, a.rng.0)
        &&& b.world.entities@.len() == planned.entities@.len()
        &&& forall|i: int| 0 <= i < planned.entities@.len() ==> #[trigger] b.world.entities@[i]
            == ticked_entity(a.rules, b.occupancy, planned.entities@, i)
        &&& b.turn.0 == a.turn.0 + (if moves(resolved_entity(a.rules, b.occupancy,
            planned.entities@, planned.player as int)) { 1int } else { 0int })
    }
    &&& r matches Some(ev) ==> ev == events_for(b.world)
}

/// The run context: the world, the occupancy index, the turn counter, the
/// random stream with its seed, the input log, replay playback, the movement
/// policy and the AI settings.
pub struct Engine<R: Rules> {
    pub world: World,
    pub occupancy: OccupancyIndex,
    pub turn: TurnNumber,
    pub rng: TurnRng,
    pub seed: u64,
    pub log: ReplayLog,
    pub active: ActiveReplay,
    pub rules: R,
    pub ai: AiConfig,
}

impl<R: Rules> Engine<R> {
    pub open spec fn wf(&self) -> bool {
        &&& self.world.wf()
        &&& self.occupancy.wf()
        &&& self.active.wf()
        &&& self.ai.wf()
    }

    /// A fresh run on `world`, seeded with `seed`, at turn 0, with an empty
    /// log, no replay, and one random AI step in ten.
    pub fn new(world: World, rules: R, seed: u64) -> (r: Engine<R>)
        requires
            world.wf(),
        ensures
            r.wf(),
            r.world == world,
            r.rules == rules,
            r.seed == seed,
            r.rng.0 == seeded_stream(seed),
            r.turn.0 == 0,
            r.log.0@.len() == 0,
            r.active.replay is None,
            r.ai.random_numerator == 1,
            r.ai.random_denominator == 10,
    {
        Engine {
            world,
            occupancy: OccupancyIndex::new(),
            turn: TurnNumber(0),
            rng: TurnRng::from_seed(seed),
            seed,
            log: ReplayLog::new(),
            active: ActiveReplay::new(),
            rules,
            ai: AiConfig::new(),
        }
    }

    /// Replaces the movement policy.
    pub fn set_rules(&mut self, rules: R)
        ensures
            *final(self) == (Engine { rules, ..*old(self) }),
    {
        self.rules = rules;
    }

    /// Replaces the AI settings.
    pub fn set_ai_config(&mut self, cfg: AiConfig)
        requires
            cfg.wf(),
        ensures
            *final(self) == (Engine { ai: cfg, ..*old(self) }),
    {
        self.ai = cfg;
    }

    /// Live input: applied to the player's pending intent only while it is
    /// `Wait` and no replay is playing; an accepted input is logged with the
    /// current turn. Returns whether it was accepted.
    pub fn apply_input(&mut self, event: InputEvent) -> (r: bool)
        requires
            old(self).wf(),
        ensures
            final(self).wf(),
            r == (old(self).active.replay is None && old(self).world.player_state().pending.0 == Intent::Wait),
            r ==> final(self).log.0@ == old(self).log.0@.push(crate::replay::RecordedInput { turn: old(self).turn.0, input: event }),
            r ==> final(self).world.entities@ == old(self).world.entities@.update(
                old(self).world.player as int,
                EntityState { pending: PendingIntent(intent_of_spec(event)), ..old(self).world.player_state() },
            ),
            !r ==> final(self).log == old(self).log && final(self).world.entities@ == old(self).world.entities@,
            final(self).world.player == old(self).world.player,
            final(self).world.width == old(self).world.width,
            final(self).world.height == old(self).world.height,
            final(self).turn == old(self).turn,
            final(self).active == old(self).active,
    {
        if self.active.is_active() {
            return false;
        }
        let player = self.world.player;
        let e = self.world.entities[player];
        match e.pending.0 {
            Intent::Wait => {
                self.world.entities.set(player, EntityState { pending: PendingIntent(intent_of(event)), ..e });
                self.log.record(self.turn.0, event);
                true
            },
            _ => false,
        }
    }

    /// The replay's input phase for the current turn.
    pub fn feed_replay(&mut self)
        requires
            old(self).wf(),
        ensures
            final(self).wf(),
            fed(*old(self), *final(self)),
    {
        feed_replay_inputs(&mut self.active, &mut self.world, self.turn.0);
    }

    /// One tick of the pipeline. It runs only when the player has a move or
    /// an interaction pending (else nothing changes and `None` comes back):
    /// AI planning, occupancy rebuild and validation, commit, trigger
    /// detection, cleanup. The turn counter grows by one exactly when the
    /// player's validated intent was a move.
    pub fn tick(&mut self) -> (r: Option<TickEvents>)
        requires
            old(self).wf(),
            old(self).turn.0 < u64::MAX,
        ensures
            final(self).wf(),
            ticked(*old(self), *final(self), r),
    {
        if !player_has_actions(&self.world) {
            return None;
        }
        plan_ai(&mut self.world, self.ai, &mut self.rng);
        let ghost planned = self.world;
        rebuild_occupancy(&self.world, &mut self.occupancy);
        validate_moves(&mut self.world, &self.occupancy, &self.rules);
        let ghost resolved = self.world;
        commit_changes(&mut self.world, &mut self.turn);
        let events = fire_on_enter_hooks(&self.world);
        let ghost committed = self.world;
        cleanup_turn(&mut self.world);
        assert forall|l: Layer, c: GridCoord|
            #[trigger] self.occupancy.at_spec(l, c) == occupants(old(self).world.entities@, l, c) by {
            assert(occupants(planned.entities@, l, c) == occupants(old(self).world.entities@, l, c)) by {
                lemma_same_positions(planned.entities@, old(self).world.entities@, planned.entities@.len() as int, l, c);
            };
        };
        assert(resolved.player_state() == resolved_entity(self.rules, self.occupancy, planned.entities@, planned.player as int));
        assert(events_for(committed) == events_for(self.world)) by {
            assert(committed.entities@.len() == self.world.entities@.len());
            assert forall|i: int| 0 <= i < committed.entities@.len() implies
                #[trigger] committed.entities@[i].position == self.world.entities@[i].position
                && committed.entities@[i].tags == self.world.entities@[i].tags by {};
            lemma_events_by_positions(committed, self.world);
        };
        Some(events)
    }

    /// One frame of playback: the replay's input phase, then the gated tick.
    pub fn replay_step(&mut self) -> (r: Option<TickEvents>)
        requires
            old(self).wf(),
            old(self).turn.0 < u64::MAX,
        ensures
            final(self).wf(),
            exists|mid: Engine<R>| mid.wf() && fed(*old(self), mid) && ticked(mid, *final(self), r),
            final(self).active.replay == old(self).active.replay,
            final(self).turn.0 == old(self).turn.0 || final(self).turn.0 == old(self).turn.0 + 1,
    {
        self.feed_replay();
        let ghost mid = *self;
        let r = self.tick();
        assert(mid.wf() && fed(*old(self), mid) && ticked(mid, *self, r));
        r
    }

    /// Starts playing `replay`: reseeds the stream from its seed, resets the
    /// turn counter and clears the log.
    pub fn start_replay(&mut self, replay: Replay)
        requires
            old(self).wf(),
        ensures
            final(self).wf(),
            final(self).seed == replay.seed,
            final(self).rng.0 == seeded_stream(replay.seed),
            final(self).turn.0 == 0,
            final(self).log.0@.len() == 0,
            final(self).active.replay == Some(replay),
            final(self).active.cursor == 0,
            final(self).world == old(self).world,
    {
        self.seed = replay.seed;
        self.rng = TurnRng::from_seed(replay.seed);
        self.turn = TurnNumber(0);
        self.log.clear();
        self.active.start(replay);
    }

    /// Stops replay playback.
    pub fn stop_replay(&mut self)
        requires
            old(self).wf(),
        ensures
            final(self).wf(),
            *final(self) == (Engine { active: ActiveReplay { replay: None, cursor: 0 }, ..*old(self) }),
    {
        self.active.stop();
    }

    /// Whether a replay is loaded.
    pub fn is_replay_active(&self) -> (r: bool)
        ensures
            r == self.active.replay is Some,
    {
        self.active.is_active()
    }

    /// A fresh run: the given seed, a stream seeded with it, turn 0, an
    /// empty log.
    pub fn reset_with_seed(&mut self, seed: u64)
        requires
            old(self).wf(),
        ensures
            final(self).wf(),
            final(self).seed == seed,
            final(self).rng.0 == seeded_stream(seed),
            final(self).turn.0 == 0,
            final(self).log.0@.len() == 0,
            final(self).world == old(self).world,
            final(self).active == old(self).active,
    {
        self.seed = seed;
        self.rng = TurnRng::from_seed(seed);
        self.turn = TurnNumber(0);
        self.log.clear();
    }

    /// A fresh run with a seed drawn from the operating system. Returns
    /// `false`, with nothing changed, when the system source fails.
    pub fn reset_run(&mut self) -> (r: bool)
        requires
            old(self).wf(),
        ensures
            final(self).wf(),
            r ==> final(self).rng.0 == seeded_stream(final(self).seed),
            r ==> final(self).turn.0 == 0,
            r ==> final(self).log.0@.len() == 0,
            r ==> final(self).world == old(self).world,
            r ==> final(self).active == old(self).active,
            !r ==> *final(self) == *old(self),
    {
        match os_seed() {
            Some(seed) => {
                self.reset_with_seed(seed);
                true
            },
            None => false,
        }
    }

    /// Ends the run: packages the seed and the log into a replay and clears
    /// the log.
    pub fn finish_run(&mut self) -> (r: Replay)
        ensures
            r.seed == old(self).seed,
            r.inputs@ == old(self).log.0@,
            final(self).log.0@.len() == 0,
            final(self).world == old(self).world,
            final(self).turn == old(self).turn,
            final(self).seed == old(self).seed,
            final(self).active == old(self).active,
            final(self).occupancy == old(self).occupancy,
            final(self).ai == old(self).ai,
    {
        let r = Replay::from_log(self.seed, &self.log);
        self.log.clear();
        r
    }
}

/// Under the default rules, an actor's move from `p` to the adjacent `q` is
/// taken exactly when no blocking entity and no actor stands on `q`;
/// otherwise the intent degrades to `Wait` and the actor stays on `p`.
pub proof fn default_move_legality(w: World, occ: OccupancyIndex, i: int, d: Dir)
    requires
        forall|l: Layer, c: GridCoord| #[trigger] occ.at_spec(l, c) == occupants(w.entities@, l, c),
        0 <= i < w.entities@.len(),
        w.entities@[i].tags.actor,
        w.entities@[i].pending.0 == Intent::Move(d),
        can_step(d, w.entities@[i].position.0),
    ensures
        ({
            let p = w.entities@[i].position.0;
            let q = step_spec(d, p);
            let t = ticked_entity(DefaultRules, occ, w.entities@, i);
            &&& !holds_obstacle(w, q) ==> t.position.0 == q
            &&& holds_obstacle(w, q) ==> t.position.0 == p
        }),
{
    let p = w.entities@[i].position.0;
    default_rules_allow_iff_free(w, occ, i as EntityId, p, step_spec(d, p));
}

proof fn lemma_same_positions(a: Seq<EntityState>, b: Seq<EntityState>, n: int, l: Layer, c: GridCoord)
    requires
        a.len() == b.len(),
        0 <= n <= a.len(),
        forall|i: int| 0 <= i < a.len() ==> #[trigger] a[i].position == b[i].position && a[i].tags == b[i].tags,
    ensures
        crate::components::occupants_upto(a, n, l, c) == crate::components::occupants_upto(b, n, l, c),
    decreases n,
{
    if n > 0 {
        lemma_same_positions(a, b, n - 1, l, c);
        assert(a[n - 1].position == b[n - 1].position && a[n - 1].tags == b[n - 1].tags);
    }
}

proof fn lemma_events_by_positions(a: World, b: World)
    requires
        a.player == b.player,
        a.player < a.entities@.len(),
        a.entities@.len() == b.entities@.len(),
        forall|i: int| 0 <= i < a.entities@.len() ==> #[trigger] a.entities@[i].position == b.entities@[i].position
            && a.entities@[i].tags == b.entities@[i].tags,
    ensures
        events_for(a) == events_for(b),
{
    let pa = a.player_state().position.0;
    assert(a.entities@[a.player as int].position == b.entities@[b.player as int].position);
    let ea = a.entities@;
    let eb = b.entities@;
    if goal_at(ea, pa) {
        let i = choose|i: int| 0 <= i < ea.len() && ea[i].tags.goal && #[trigger] ea[i].position.0 == pa;
        assert(eb[i].position.0 == pa);
    }
    if goal_at(eb, pa) {
        let i = choose|i: int| 0 <= i < eb.len() && eb[i].tags.goal && #[trigger] eb[i].position.0 == pa;
        assert(ea[i].position.0 == pa);
    }
    if trap_at(ea, pa) {
        let i = choose|i: int| 0 <= i < ea.len() && ea[i].tags.trap && #[trigger] ea[i].position.0 == pa;
        assert(eb[i].position.0 == pa);
    }
    if trap_at(eb, pa) {
        let i = choose|i: int| 0 <= i < eb.len() && eb[i].tags.trap && #[trigger] eb[i].position.0 == pa;
        assert(ea[i].position.0 == pa);
    }
    if ai_at(ea, pa) {
        let i = choose|i: int| 0 <= i < ea.len() && ea[i].tags.ai && #[trigger] ea[i].position.0 == pa;
        assert(eb[i].position.0 == pa);
    }
    if ai_at(eb, pa) {
        let i = choose|i: int| 0 <= i < eb.len() && eb[i].tags.ai && #[trigger] eb[i].position.0 == pa;
        assert(ea[i].position.0 == pa);
    }
}

} // verus!
