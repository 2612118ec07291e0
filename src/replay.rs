use vstd::prelude::*;
use crate::components::{EntityState, PendingIntent, World};
use crate::intents::{guarded_apply, intent_of, InputEvent, Intent};

verus! {

/// One accepted player input, tagged with the turn at which it was accepted.
#[derive(Debug, Clone, Copy, PartialEq, Eq, Structural)]
pub struct RecordedInput {
    pub turn: u64,
    pub input: InputEvent,
}

/// A persisted run: the seed and the recorded inputs in order.
#[derive(Debug, Clone)]
pub struct Replay {
    pub seed: u64,
    pub inputs: Vec<RecordedInput>,
}

/// The append-only log of the current run's accepted inputs.
#[derive(Debug, Clone)]
pub struct ReplayLog(pub Vec<RecordedInput>);

/// Playback state: the loaded replay, if any, and the index of the next
/// recorded input to dispatch.
#[derive(Debug, Clone)]
pub struct ActiveReplay {
    pub replay: Option<Replay>,
    pub cursor: usize,
}

/// The end of the batch that starts at `k`: the first index at or after `k`
/// whose input is not tagged with `turn`.
pub open spec fn batch_end(inputs: Seq<RecordedInput>, k: int, turn: u64) -> int
    decreases inputs.len() - k,
{
    if 0 <= k < inputs.len() && inputs[k].turn == turn {
        batch_end(inputs, k + 1, turn)
    } else {
        k
    }
}

/// The pending intent after the inputs `k..end` were offered to it one by
/// one, each only while the intent is `Wait`.
pub open spec fn dispatch(p: Intent, inputs: Seq<RecordedInput>, k: int, end: int) -> Intent
    decreases end - k,
{
    if 0 <= k < end && k < inputs.len() {
        dispatch(guarded_apply(p, inputs[k].input), inputs, k + 1, end)
    } else {
        p
    }
}

/// An intent that is not `Wait` is never changed by dispatched inputs.
pub proof fn dispatch_keeps_busy_intent(p: Intent, inputs: Seq<RecordedInput>, k: int, end: int)
    requires
        p != Intent::Wait,
    ensures
        dispatch(p, inputs, k, end) == p,
    decreases end - k,
{
    if 0 <= k < end && k < inputs.len() {
        dispatch_keeps_busy_intent(guarded_apply(p, inputs[k].input), inputs, k + 1, end);
    }
}

proof fn batch_end_bounds(inputs: Seq<RecordedInput>, k: int, turn: u64)
    requires
        0 <= k <= inputs.len(),
    ensures
        k <= batch_end(inputs, k, turn) <= inputs.len(),
        forall|j: int| k <= j < batch_end(inputs, k, turn) ==> (#[trigger] inputs[j]).turn == turn,
    decreases inputs.len() - k,
{
    if 0 <= k < inputs.len() && inputs[k].turn == turn {
        batch_end_bounds(inputs, k + 1, turn);
    }
}

impl ReplayLog {
    pub fn new() -> (r: ReplayLog)
        ensures
            r.0@.len() == 0,
    {
        ReplayLog(Vec::new())
    }

    /// Appends an input tagged with `turn`.
    pub fn record(&mut self, turn: u64, input: InputEvent)
        ensures
            final(self).0@ == old(self).0@.push(RecordedInput { turn, input }),
    {
        self.0.push(RecordedInput { turn, input });
    }

    pub fn clear(&mut self)
        ensures
            final(self).0@.len() == 0,
    {
        self.0.clear();
    }
}

impl Replay {
    /// Packages a seed and a copy of the log.
    pub fn from_log(seed: u64, log: &ReplayLog) -> (r: Replay)
        ensures
            r.seed == seed,
            r.inputs@ == log.0@,
    {
        let mut inputs: Vec<RecordedInput> = Vec::new();
        let mut i: usize = 0;
        while i < log.0.len()
            invariant
                i <= log.0@.len(),
                inputs@ == log.0@.subrange(0, i as int),
            decreases log.0@.len() - i,
        {
            inputs.push(log.0[i]);
            i += 1;
            assert(inputs@ =~= log.0@.subrange(0, i as int));
        }
        assert(inputs@ =~= log.0@);
        Replay { seed, inputs }
    }
}

impl ActiveReplay {
    /// The cursor never passes the end of the loaded inputs.
    pub open spec fn wf(&self) -> bool {
        match self.replay {
            Some(r) => self.cursor <= r.inputs@.len(),
            None => self.cursor == 0,
        }
    }

    /// No replay loaded.
    pub fn new() -> (r: ActiveReplay)
        ensures
            r.wf(),
            r.replay is None,
            r.cursor == 0,
    {
        ActiveReplay { replay: None, cursor: 0 }
    }

    /// Starts playing `replay` from its beginning.
    pub fn start(&mut self, replay: Replay)
        ensures
            final(self).wf(),
            final(self).replay == Some(replay),
            final(self).cursor == 0,
    {
        self.replay = Some(replay);
        self.cursor = 0;
    }

    /// Stops playback.
    pub fn stop(&mut self)
        ensures
            final(self).wf(),
            final(self).replay is None,
            final(self).cursor == 0,
    {
        self.replay = None;
        self.cursor = 0;
    }

    pub fn is_active(&self) -> (r: bool)
        ensures
            r == self.replay is Some,
    {
        self.replay.is_some()
    }

    /// Playback has consumed every recorded input (also when nothing is loaded).
    pub fn is_done(&self) -> (r: bool)
        ensures
            r == match self.replay {
                Some(rp) => self.cursor >= rp.inputs@.len(),
                None => true,
            },
    {
        match &self.replay {
            Some(rp) => self.cursor >= rp.inputs.len(),
            None => true,
        }
    }
}

/// The replay's input phase: while the player is idle, dispatches every
/// recorded input tagged with the current turn, each through the idle-guard,
/// and moves the cursor past them. With no replay loaded, or a player that is
/// not idle, nothing changes.
pub fn feed_replay_inputs(active: &mut ActiveReplay, world: &mut World, turn: u64)
    requires
        old(active).wf(),
        old(world).wf(),
    ensures
        final(active).wf(),
        final(active).replay == old(active).replay,
        final(world).player == old(world).player,
        final(world).width == old(world).width,
        final(world).height == old(world).height,
        final(world).entities@.len() == old(world).entities@.len(),
        forall|i: int| 0 <= i < old(world).entities@.len() && i != old(world).player
            ==> #[trigger] final(world).entities@[i] == old(world).entities@[i],
        match old(active).replay {
            Some(rp) => if old(world).player_state().pending.0 == Intent::Wait {
                &&& final(active).cursor == batch_end(rp.inputs@, old(active).cursor as int, turn)
                &&& final(world).player_state() == (EntityState {
                    pending: PendingIntent(dispatch(Intent::Wait, rp.inputs@, old(active).cursor as int, final(active).cursor as int)),
                    ..old(world).player_state()
                })
            } else {
                &&& final(active).cursor == old(active).cursor
                &&& final(world).player_state() == old(world).player_state()
            },
            None => final(active).cursor == old(active).cursor && final(world).player_state() == old(world).player_state(),
        },
{
    let player = world.player;
    let e = world.entities[player];
    if let Intent::Wait = e.pending.0 {
    } else {
        return;
    }
    let cursor0 = active.cursor;
    let mut cursor = active.cursor;
    let mut pending = e.pending.0;
    match &active.replay {
        None => {
            return;
        },
        Some(rp) => {
            let inputs = &rp.inputs;
            proof {
                batch_end_bounds(inputs@, cursor0 as int, turn);
            }
            while cursor < inputs.len() && inputs[cursor].turn == turn
                invariant
                    cursor0 <= cursor <= inputs@.len(),
                    batch_end(inputs@, cursor as int, turn) == batch_end(inputs@, cursor0 as int, turn),
                    dispatch(pending, inputs@, cursor as int, batch_end(inputs@, cursor as int, turn))
                        == dispatch(Intent::Wait, inputs@, cursor0 as int, batch_end(inputs@, cursor0 as int, turn)),
                decreases inputs@.len() - cursor,
            {
                let ghost end = batch_end(inputs@, cursor as int, turn);
                let ghost before = pending;
                proof {
                    batch_end_bounds(inputs@, cursor as int + 1, turn);
                    assert(end == batch_end(inputs@, cursor as int + 1, turn));
                }
                if let Intent::Wait = pending {
                    pending = intent_of(inputs[cursor].input);
                }
                assert(pending == guarded_apply(before, inputs@[cursor as int].input));
                assert(dispatch(before, inputs@, cursor as int, end)
                    == dispatch(pending, inputs@, cursor as int + 1, end));
                cursor += 1;
            }
        },
    }
    active.cursor = cursor;
    world.entities.set(player, EntityState { pending: PendingIntent(pending), ..e });
}

} // verus!
