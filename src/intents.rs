use vstd::prelude::*;
use crate::components::{occupants, EntityState};
use crate::grid::{adjacent, can_step, grid_step_to_dir, in_bounds_spec, step_spec, Dir, GridCoord, Layer};
use crate::occupancy::OccupancyIndex;
use crate::pathfinding::{astar, is_path, is_shortest_path, passable_of, reachable, unit_cost, AStarPolicy};
use crate::rng::{draw_index, index_draw, ratio_draw, roll_ratio, TurnRng};
use rand::rngs::StdRng;
use crate::rules::cell_free;

verus! {

/// An entity's desired action for the current tick.
#[derive(Debug, Clone, Copy, PartialEq, Eq, Structural)]
pub enum Intent {
    Move(Dir),
    Wait,
    Interact,
}

/// A raw external input; mirrors `Intent` in shape.
#[derive(Debug, Clone, Copy, PartialEq, Eq, Structural)]
pub enum InputEvent {
    Move(Dir),
    Wait,
    Interact,
}

/// The intent that an input event asks for.
pub open spec fn intent_of_spec(e: InputEvent) -> Intent {
    match e {
        InputEvent::Move(d) => Intent::Move(d),
        InputEvent::Wait => Intent::Wait,
        InputEvent::Interact => Intent::Interact,
    }
}

/// The intent that an input event asks for.
pub fn intent_of(e: InputEvent) -> (r: Intent)
    ensures
        r == intent_of_spec(e),
{
    match e {
        InputEvent::Move(d) => Intent::Move(d),
        InputEvent::Wait => Intent::Wait,
        InputEvent::Interact => Intent::Interact,
    }
}

/// Applies an event to a pending intent, but only while that intent is `Wait`.
pub open spec fn guarded_apply(p: Intent, e: InputEvent) -> Intent {
    if p == Intent::Wait {
        intent_of_spec(e)
    } else {
        p
    }
}

} // verus!

verus! {

/// Neither the Blockers nor the Actors layer of `occ` holds anything, as a
/// test on cells.
pub open spec fn occ_free(occ: OccupancyIndex) -> spec_fn(GridCoord) -> bool {
    |c: GridCoord| cell_free(occ, c)
}

/// No blocking entity and no actor of `es` stands on the cell, as a test on
/// cells.
pub open spec fn world_free(es: Seq<EntityState>) -> spec_fn(GridCoord) -> bool {
    |c: GridCoord| occupants(es, Layer::Blockers, c).len() == 0 && occupants(es, Layer::Actors, c).len() == 0
}

/// A cell the chasing AI may enter: its target, or a free cell.
pub open spec fn chase_open(free: spec_fn(GridCoord) -> bool, target: GridCoord, c: GridCoord) -> bool {
    c == target || free(c)
}

/// A single step in direction `d` from `start` is legal for the chaser.
pub open spec fn step_legal(free: spec_fn(GridCoord) -> bool, start: GridCoord, target: GridCoord, d: Dir) -> bool {
    can_step(d, start) && chase_open(free, target, step_spec(d, start))
}

pub open spec fn legal_if(free: spec_fn(GridCoord) -> bool, start: GridCoord, target: GridCoord, d: Dir) -> Seq<Dir> {
    if step_legal(free, start, target, d) {
        seq![d]
    } else {
        Seq::empty()
    }
}

/// The legal single steps, in the order Up, Down, Left, Right.
pub open spec fn legal_steps_spec(free: spec_fn(GridCoord) -> bool, start: GridCoord, target: GridCoord) -> Seq<Dir> {
    legal_if(free, start, target, Dir::Up) + legal_if(free, start, target, Dir::Down)
        + legal_if(free, start, target, Dir::Left) + legal_if(free, start, target, Dir::Right)
}

/// `r` is what an AI at `start` chasing `target` decides, where `pick` is the
/// index of a random legal step, if one was drawn. With no usable pick the
/// AI follows a shortest path to the target: it moves to the path's second
/// cell; it waits exactly when no path exists from its in-bounds cell.
pub open spec fn ai_decision_ok(
    free: spec_fn(GridCoord) -> bool,
    start: GridCoord,
    target: GridCoord,
    width: int,
    height: int,
    pick: Option<usize>,
    r: Intent,
) -> bool {
    let legal = legal_steps_spec(free, start, target);
    let open = |c: GridCoord| chase_open(free, target, c);
    if start == target {
        r == Intent::Wait
    } else if pick is Some && pick->Some_0 < legal.len() {
        r == Intent::Move(legal[pick->Some_0 as int])
    } else {
        &&& match r {
            Intent::Move(d) => can_step(d, start) && exists|p: Seq<GridCoord>|
                #[trigger] is_shortest_path(p, start, target, open, width, height) && p.len() >= 2 && p[1] == step_spec(d, start),
            Intent::Wait => true,
            Intent::Interact => false,
        }
        &&& !reachable(start, target, open, width, height) ==> r == Intent::Wait
        &&& in_bounds_spec(start, width, height) && reachable(start, target, open, width, height) ==> r is Move
    }
}

/// How often an AI takes a random legal step instead of its planned one:
/// `random_numerator / random_denominator`.
#[derive(Debug, Clone, Copy, PartialEq, Eq, Structural)]
pub struct AiConfig {
    pub random_numerator: u32,
    pub random_denominator: u32,
}

impl AiConfig {
    /// The ratio is a probability.
    pub open spec fn wf(&self) -> bool {
        0 < self.random_denominator && self.random_numerator <= self.random_denominator
    }

    /// One random step in ten.
    pub fn new() -> (r: AiConfig)
        ensures
            r.wf(),
            r.random_numerator == 1,
            r.random_denominator == 10,
    {
        AiConfig { random_numerator: 1, random_denominator: 10 }
    }
}

/// Passability for the chasing AI: its target, or any cell with nothing on
/// the Blockers and Actors layers of the snapshot. Every step costs 1.
pub struct ChasePolicy {
    pub occ: OccupancyIndex,
    pub target: GridCoord,
}

impl AStarPolicy for ChasePolicy {
    open spec fn well_formed(&self) -> bool {
        self.occ.wf()
    }

    open spec fn passable_spec(&self, c: GridCoord) -> bool {
        chase_open(occ_free(self.occ), self.target, c)
    }

    fn passable(&self, c: GridCoord) -> (r: bool) {
        c == self.target || (!self.occ.is_occupied(Layer::Blockers, c) && !self.occ.is_occupied(Layer::Actors, c))
    }

    open spec fn cost_spec(&self, from: GridCoord, to: GridCoord) -> u32 {
        1
    }

    fn cost(&self, from: GridCoord, to: GridCoord) -> (r: u32) {
        1
    }
}

/// The legal single steps from `start`, in the order Up, Down, Left, Right.
pub fn legal_steps(occ: &OccupancyIndex, start: GridCoord, target: GridCoord) -> (r: Vec<Dir>)
    requires
        occ.wf(),
    ensures
        r@ == legal_steps_spec(occ_free(*occ), start, target),
{
    let ghost policy_free = occ_free(*occ);
    let mut r: Vec<Dir> = Vec::new();
    let dirs = [Dir::Up, Dir::Down, Dir::Left, Dir::Right];
    let mut k: usize = 0;
    while k < 4
        invariant
            occ.wf(),
            policy_free == occ_free(*occ),
            k <= 4,
            dirs@ == seq![Dir::Up, Dir::Down, Dir::Left, Dir::Right],
            r@ == (if k == 0 {
                Seq::<Dir>::empty()
            } else if k == 1 {
                legal_if(policy_free, start, target, Dir::Up)
            } else if k == 2 {
                legal_if(policy_free, start, target, Dir::Up) + legal_if(policy_free, start, target, Dir::Down)
            } else if k == 3 {
                legal_if(policy_free, start, target, Dir::Up) + legal_if(policy_free, start, target, Dir::Down)
                    + legal_if(policy_free, start, target, Dir::Left)
            } else {
                legal_steps_spec(policy_free, start, target)
            }),
        decreases 4 - k,
    {
        let d = dirs[k];
        let ghost before = r@;
        match d.checked_step(start) {
            Some(next) => {
                let blocked = occ.is_occupied(Layer::Blockers, next) || occ.is_occupied(Layer::Actors, next);
                assert(policy_free(next) == !blocked);
                if next == target || !blocked {
                    r.push(d);
                    assert(r@ =~= before + legal_if(policy_free, start, target, d));
                } else {
                    assert(r@ =~= before + legal_if(policy_free, start, target, d));
                }
            },
            None => {
                assert(r@ =~= before + legal_if(policy_free, start, target, d));
            },
        }
        k += 1;
    }
    r
}

/// A uniformly drawn legal single step, or `None` when there is none (then
/// nothing is drawn).
pub fn random_legal_step(start: GridCoord, target: GridCoord, occ: &OccupancyIndex, rng: &mut TurnRng) -> (r: Option<Dir>)
    requires
        occ.wf(),
    ensures
        ({
            let legal = legal_steps_spec(occ_free(*occ), start, target);
            if legal.len() == 0 {
                r is None && *final(rng) == *old(rng)
            } else {
                let (i, after) = index_draw(old(rng).0, legal.len() as usize);
                &&& i < legal.len()
                &&& r == Some(legal[i as int])
                &&& final(rng).0 == after
            }
        }),
{
    let legal = legal_steps(occ, start, target);
    if legal.len() == 0 {
        None
    } else {
        let idx = draw_index(&mut rng.0, legal.len());
        Some(legal[idx])
    }
}

/// The AI's decision at `start`, given the index of a random legal step if
/// one was drawn: a usable pick is taken; otherwise the AI moves towards the
/// second cell of the A* path to the policy's target, or waits.
pub fn ai_intent(policy: &ChasePolicy, start: GridCoord, width: i32, height: i32, pick: Option<usize>) -> (r: Intent)
    requires
        policy.occ.wf(),
    ensures
        ai_decision_ok(occ_free(policy.occ), start, policy.target, width as int, height as int, pick, r),
{
    let target = policy.target;
    let ghost free = occ_free(policy.occ);
    if start == target {
        return Intent::Wait;
    }
    if let Some(i) = pick {
        let legal = legal_steps(&policy.occ, start, target);
        if i < legal.len() {
            return Intent::Move(legal[i]);
        }
    }
    let ghost open = |c: GridCoord| chase_open(free, target, c);
    assert(passable_of(*policy) =~= open);
    assert(unit_cost(*policy));
    match astar(start, target, policy, width, height) {
        None => Intent::Wait,
        Some(path) => {
            assert(is_path(path@, start, target, open, width as int, height as int));
            if path.len() < 2 {
                Intent::Wait
            } else {
                assert(adjacent(path@[0], path@[1]));
                match grid_step_to_dir(start, path[1]) {
                    Some(d) => {
                        assert(is_shortest_path(path@, start, target, open, width as int, height as int));
                        Intent::Move(d)
                    },
                    None => Intent::Wait,
                }
            }
        },
    }
}

/// The random pick (if any) that planning draws for an AI at `start`, and
/// the stream it leaves, from the stream `rng`: no draw on the target; else
/// one ratio draw, and one index draw when that draw says yes and a legal
/// step exists.
pub open spec fn planned_draws(
    free: spec_fn(GridCoord) -> bool,
    start: GridCoord,
    target: GridCoord,
    cfg: AiConfig,
    rng: StdRng,
) -> (Option<usize>, StdRng) {
    if start == target {
        (None, rng)
    } else {
        let (roll, after_roll) = ratio_draw(rng, cfg.random_numerator, cfg.random_denominator);
        let legal = legal_steps_spec(free, start, target);
        if roll && legal.len() > 0 {
            let (i, after_pick) = index_draw(after_roll, legal.len() as usize);
            (Some(i), after_pick)
        } else {
            (None, after_roll)
        }
    }
}

/// Plans one AI entity's intent: nothing is drawn when it already stands on
/// its target; otherwise one draw decides whether it takes a random legal
/// step (one more draw picks it), and else it follows its A* path.
pub fn plan_intent(policy: &ChasePolicy, start: GridCoord, width: i32, height: i32, cfg: AiConfig, rng: &mut TurnRng) -> (r: Intent)
    requires
        policy.occ.wf(),
        cfg.wf(),
    ensures
        ({
            let (pick, after) = planned_draws(occ_free(policy.occ), start, policy.target, cfg, old(rng).0);
            &&& ai_decision_ok(occ_free(policy.occ), start, policy.target, width as int, height as int, pick, r)
            &&& final(rng).0 == after
            &&& pick matches Some(i) ==> i < legal_steps_spec(occ_free(policy.occ), start, policy.target).len()
        }),
        cfg.random_numerator == 0 ==> ai_decision_ok(occ_free(policy.occ), start, policy.target, width as int, height as int, None, r),
        start == policy.target ==> r == Intent::Wait && *final(rng) == *old(rng),
{
    let ghost free = occ_free(policy.occ);
    if start == policy.target {
        assert(ai_decision_ok(free, start, policy.target, width as int, height as int, None, Intent::Wait));
        return Intent::Wait;
    }
    let ghost rng0 = rng.0;
    let roll = roll_ratio(&mut rng.0, cfg.random_numerator, cfg.random_denominator);
    let ghost rng1 = rng.0;
    assert((roll, rng1) == ratio_draw(rng0, cfg.random_numerator, cfg.random_denominator));
    if roll {
        match random_legal_step(start, policy.target, &policy.occ, rng) {
            Some(d) => {
                let ghost legal = legal_steps_spec(free, start, policy.target);
                let ghost pick = index_draw(rng1, legal.len() as usize);
                assert(legal[pick.0 as int] == d);
                assert(planned_draws(free, start, policy.target, cfg, rng0) == (Some(pick.0), pick.1));
                assert(ai_decision_ok(free, start, policy.target, width as int, height as int, Some(pick.0), Intent::Move(d)));
                return Intent::Move(d);
            },
            None => {},
        }
    }
    assert(planned_draws(free, start, policy.target, cfg, rng0) == (None::<usize>, rng.0));
    let r = ai_intent(policy, start, width, height, None);
    r
}

} // verus!
