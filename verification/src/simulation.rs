//! The game state and its transitions: commands, and the tick that runs once
//! per frame.

use crate::collision::{collides, is_collided, HELI_RADIUS};
use crate::fixed::ONE;
use crate::random::RandomSource;
use crate::tunnel::{
    appended_by_tick, evicted, heights, lemma_first_tick_well_formed, lemma_tick_determined,
    lemma_tick_determined_by_record, lemma_tick_keeps_well_formed, lemma_well_formed_ordered, move_tube, opening, reaches_edge,
    same_heights, scrolled, strictly_increasing, tube_moved, well_formed, Tunnel, TunnelSegment,
};
use crate::vehicle::Vehicle;
use vstd::prelude::*;

verus! {

/// What the game is doing.
#[derive(Clone, Copy, Debug, PartialEq, Eq, Structural)]
pub enum Phase {
    /// The helicopter flies and the tunnel scrolls.
    Running,
    /// Nothing moves until thrust is given.
    Paused,
    /// The helicopter has hit a wall; only a restart leads on.
    Collided,
}

/// What a key press asks for.
#[derive(Clone, Copy, Debug, PartialEq, Eq, Structural)]
pub enum Command {
    Quit,
    TogglePause,
    Restart,
}

/// Whether the frame loop goes on.
#[derive(Clone, Copy, Debug, PartialEq, Eq, Structural)]
pub enum Flow {
    Continue,
    Exit,
}

/// All that changes during a game.
pub struct AppState {
    pub rng: RandomSource,
    pub paused: bool,
    pub collided: bool,
    pub vehicle: Vehicle,
    pub tunnel: Tunnel,
}

/// The game state as contracts see it: of the random source, the values it
/// has handed out so far.
pub struct Snapshot {
    pub paused: bool,
    pub collided: bool,
    pub vehicle: Vehicle,
    pub tunnel: Seq<TunnelSegment>,
    pub drawn: Seq<i64>,
}

impl View for AppState {
    type V = Snapshot;

    open spec fn view(&self) -> Snapshot {
        Snapshot {
            paused: self.paused,
            collided: self.collided,
            vehicle: self.vehicle,
            tunnel: self.tunnel@,
            drawn: self.rng.drawn(),
        }
    }
}

impl Snapshot {
    /// A collision outranks a pause.
    pub open spec fn phase(self) -> Phase {
        if self.collided {
            Phase::Collided
        } else if self.paused {
            Phase::Paused
        } else {
            Phase::Running
        }
    }

    /// Whether this is a state that a game starts in: paused, not collided,
    /// the helicopter at rest at its starting point, and the tunnel a new one.
    pub open spec fn is_fresh(self) -> bool {
        &&& self.paused
        &&& !self.collided
        &&& self.vehicle == Vehicle::at_start()
        &&& tube_moved(opening(), self.tunnel)
    }

    /// The state after the pause key: pause and run change places, and a
    /// collision stays as it is.
    pub open spec fn pause_toggled(self) -> Snapshot {
        if self.collided {
            self
        } else {
            Snapshot { paused: !self.paused, ..self }
        }
    }
}

/// Whether `after` is what one frame's tick may make of `before`. Thrust ends
/// a pause. Where the game is then running, the helicopter moves on, the
/// tunnel moves, the source hands out the heights of the segments that the
/// tunnel's tick appends, and the collision test decides whether the run is
/// over; otherwise nothing else changes.
pub open spec fn ticked(before: Snapshot, thrust: bool, after: Snapshot) -> bool {
    &&& after.paused == (before.paused && !thrust)
    &&& if before.collided || after.paused {
        &&& after.collided == before.collided
        &&& after.vehicle == before.vehicle
        &&& after.tunnel == before.tunnel
        &&& after.drawn == before.drawn
    } else {
        &&& after.vehicle == before.vehicle.advanced(thrust)
        &&& tube_moved(before.tunnel, after.tunnel)
        &&& after.drawn == before.drawn + heights(appended_by_tick(before.tunnel, after.tunnel))
        &&& after.collided == collides(after.tunnel, after.vehicle.position, HELI_RADIUS)
    }
}

/// Whether `states` is a game played from `states[0]` with the thrust key
/// held as `thrust` says, frame by frame.
pub open spec fn is_run(states: Seq<Snapshot>, thrust: Seq<bool>) -> bool {
    &&& states.len() == thrust.len() + 1
    &&& forall|k: int|
        0 < k < states.len() ==> ticked(states[k - 1], thrust[k - 1], #[trigger] states[k])
}

/// A game in its starting state, drawing its tunnel from `rng`. The state
/// holds that source, moved on by the eight values that the heights of the
/// four new segments took from it.
pub fn init_app_state(rng: RandomSource) -> (state: AppState)
    ensures
        state@.is_fresh(),
        well_formed(state.tunnel@),
        state.tunnel@.len() == 6,
        state.rng.drawn() == rng.drawn() + heights(state.tunnel@.skip(2)),
{
    let mut rng = rng;
    let tunnel: Tunnel = Tunnel::initialize(&mut rng);
    AppState { rng, paused: true, collided: false, vehicle: Vehicle::start(), tunnel }
}

impl AppState {
    /// What the game is doing.
    pub fn phase(&self) -> (p: Phase)
        ensures
            p == self@.phase(),
    {
        if self.collided {
            Phase::Collided
        } else if self.paused {
            Phase::Paused
        } else {
            Phase::Running
        }
    }

    /// The pause key: pauses a running game and resumes a paused one. After a
    /// collision it does nothing.
    pub fn toggle_pause(&mut self)
        ensures
            final(self)@ == old(self)@.pause_toggled(),
            final(self).rng == old(self).rng,
    {
        if !self.collided {
            self.paused = !self.paused;
        }
    }

    /// The restart key: puts the game back into a starting state, with a new
    /// tunnel drawn from the random source as it stands. The source is not
    /// started anew: it goes on from where it stood, by the eight values that
    /// the heights of the four new segments take from it.
    pub fn restart(&mut self)
        ensures
            final(self)@.is_fresh(),
            well_formed(final(self).tunnel@),
            final(self).tunnel@.len() == 6,
            final(self).rng.drawn() == old(self).rng.drawn() + heights(
                final(self).tunnel@.skip(2),
            ),
    {
        self.paused = true;
        self.collided = false;
        self.vehicle = Vehicle::start();
        self.tunnel = Tunnel::initialize(&mut self.rng);
    }

    /// Carries out a command and says whether the frame loop goes on.
    pub fn handle(&mut self, command: Command) -> (flow: Flow)
        ensures
            match command {
                Command::Quit => flow == Flow::Exit && *final(self) == *old(self),
                Command::TogglePause => {
                    &&& flow == Flow::Continue
                    &&& final(self)@ == old(self)@.pause_toggled()
                    &&& final(self).rng == old(self).rng
                },
                Command::Restart => {
                    &&& flow == Flow::Continue
                    &&& final(self)@.is_fresh()
                    &&& well_formed(final(self).tunnel@)
                    &&& final(self).tunnel@.len() == 6
                    &&& final(self).rng.drawn() == old(self).rng.drawn() + heights(
                        final(self).tunnel@.skip(2),
                    )
                },
            },
    {
        match command {
            Command::Quit => Flow::Exit,
            Command::TogglePause => {
                self.toggle_pause();
                Flow::Continue
            },
            Command::Restart => {
                self.restart();
                Flow::Continue
            },
        }
    }

    /// One frame. Thrust ends a pause. Where the game is then running, the
    /// helicopter moves on by one tick, the tunnel moves by one tick, and the
    /// game is over if the helicopter now touches a wall. The source hands out
    /// the heights of the segments that the tunnel's tick appends and nothing
    /// else; in a frame that appends nothing it stays as it was.
    pub fn tick(&mut self, thrust: bool)
        ensures
            ticked(old(self)@, thrust, final(self)@),
            well_formed(old(self).tunnel@) ==> well_formed(final(self).tunnel@),
            old(self).collided || (old(self).paused && !thrust) ==> final(self).rng == old(
                self,
            ).rng,
            reaches_edge(evicted(scrolled(old(self).tunnel@))) ==> final(self).rng == old(
                self,
            ).rng,
    {
        if thrust {
            self.paused = false;
        }
        if !self.collided && !self.paused {
            self.vehicle.advance(thrust);
            move_tube(&mut self.tunnel, &mut self.rng);
            self.collided = is_collided(&self.vehicle, &self.tunnel, HELI_RADIUS);
        }
    }
}

/// A frame's outcome is determined by the state before it, the thrust key and
/// the heights drawn for the tunnel: two outcomes that agree in those are the
/// same.
pub proof fn lemma_step_determined(before: Snapshot, thrust: bool, a: Snapshot, b: Snapshot)
    requires
        ticked(before, thrust, a),
        ticked(before, thrust, b),
        same_heights(a.tunnel, b.tunnel),
    ensures
        a == b,
{
    if !(before.collided || a.paused) {
        lemma_tick_determined(before.tunnel, a.tunnel, b.tunnel);
    }
}

/// A frame's outcome is determined by the state before it, the thrust key and
/// the values that the source hands out in it: two outcomes whose sources
/// have handed out the same values are the same.
pub proof fn lemma_step_determined_by_record(
    before: Snapshot,
    thrust: bool,
    a: Snapshot,
    b: Snapshot,
)
    requires
        ticked(before, thrust, a),
        ticked(before, thrust, b),
        a.drawn == b.drawn,
    ensures
        a == b,
{
    if !(before.collided || a.paused) {
        let taken_a = heights(appended_by_tick(before.tunnel, a.tunnel));
        let taken_b = heights(appended_by_tick(before.tunnel, b.tunnel));
        assert(taken_a =~= a.drawn.skip(before.drawn.len() as int));
        assert(taken_b =~= b.drawn.skip(before.drawn.len() as int));
        lemma_tick_determined_by_record(before.tunnel, a.tunnel, b.tunnel);
    }
}

/// Two games that start in the same state, see the same thrust in every
/// frame and whose sources hand out the same values hold the same tunnel and
/// the same helicopter after every frame.
pub proof fn lemma_runs_agree_by_record(
    a: Seq<Snapshot>,
    b: Seq<Snapshot>,
    thrust: Seq<bool>,
    k: int,
)
    requires
        is_run(a, thrust),
        is_run(b, thrust),
        a[0] == b[0],
        forall|j: int| 0 <= j < a.len() ==> (#[trigger] a[j]).drawn == b[j].drawn,
        0 <= k < a.len(),
    ensures
        a[k] == b[k],
    decreases k,
{
    if k > 0 {
        lemma_runs_agree_by_record(a, b, thrust, k - 1);
        lemma_step_determined_by_record(a[k - 1], thrust[k - 1], a[k], b[k]);
    }
}

/// Two games that start in the same state, see the same thrust in every
/// frame and draw the same heights hold the same tunnel and the same
/// helicopter after every frame.
pub proof fn lemma_runs_agree(a: Seq<Snapshot>, b: Seq<Snapshot>, thrust: Seq<bool>, k: int)
    requires
        is_run(a, thrust),
        is_run(b, thrust),
        a[0] == b[0],
        forall|j: int| 0 <= j < a.len() ==> #[trigger] same_heights(a[j].tunnel, b[j].tunnel),
        0 <= k < a.len(),
    ensures
        a[k] == b[k],
    decreases k,
{
    if k > 0 {
        lemma_runs_agree(a, b, thrust, k - 1);
        lemma_step_determined(a[k - 1], thrust[k - 1], a[k], b[k]);
    }
}

/// In a game played from a starting state the tunnel is well-formed after
/// every frame: it has at least two segments, in strictly increasing order,
/// and reaches the right edge.
pub proof fn lemma_run_well_formed(states: Seq<Snapshot>, thrust: Seq<bool>, k: int)
    requires
        is_run(states, thrust),
        states[0].is_fresh(),
        0 <= k < states.len(),
    ensures
        well_formed(states[k].tunnel),
        states[k].tunnel.len() >= 2,
        states[k].tunnel.last().center.x >= ONE,
        strictly_increasing(states[k].tunnel),
    decreases k,
{
    if k == 0 {
        lemma_first_tick_well_formed(states[0].tunnel);
    } else {
        lemma_run_well_formed(states, thrust, k - 1);
        if tube_moved(states[k - 1].tunnel, states[k].tunnel) {
            lemma_tick_keeps_well_formed(states[k - 1].tunnel, states[k].tunnel);
        }
    }
    lemma_well_formed_ordered(states[k].tunnel);
}

} // verus!
