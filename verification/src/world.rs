//! The world the simulation driver and the presentation driver share: the
//! bodies, the trail of the first body, and the snake game.
//!
//! The bodies and the trail entries are the integrator's business; the world
//! only keeps them, so it is generic in both.

use crate::position::Position;
use crate::snake::{is_step, Game, STEP_TICKS};
use vstd::prelude::*;

verus! {

/// The trail after the tick `iteration`: while trailing, every step tick
/// appends the snapshot taken at it.
pub open spec fn sampled<S>(trail: Seq<S>, trailing: bool, iteration: int, snapshot: S) -> Seq<S> {
    if trailing && is_step(iteration) {
        trail.push(snapshot)
    } else {
        trail
    }
}

/// The trail after the ticks `0` to `ticks - 1`, trailing throughout, where
/// `snapshots` gives the snapshot taken at each tick.
pub open spec fn trail_after<S>(trail: Seq<S>, ticks: nat, snapshots: spec_fn(int) -> S) -> Seq<S>
    decreases ticks,
{
    if ticks == 0 {
        trail
    } else {
        sampled(
            trail_after(trail, (ticks - 1) as nat, snapshots),
            true,
            ticks - 1,
            snapshots(ticks - 1),
        )
    }
}

/// While trailing, the trail gains one entry per window of `STEP_TICKS`
/// ticks begun: one after 40 ticks, two after 80.
pub proof fn lemma_trail_length<S>(trail: Seq<S>, ticks: nat, snapshots: spec_fn(int) -> S)
    ensures
        trail_after(trail, ticks, snapshots).len() == trail.len() + (ticks + STEP_TICKS - 1)
            / (STEP_TICKS as int),
    decreases ticks,
{
    if ticks > 0 {
        lemma_trail_length(trail, (ticks - 1) as nat, snapshots);
    }
}

/// The bodies after the driver has written back its copy `local`: as many
/// bodies as before, each taken from `local` where `local` has one.
pub open spec fn committed<B>(shared: Seq<B>, local: Seq<B>) -> Seq<B> {
    Seq::new(
        shared.len(),
        |index: int|
            if index < local.len() {
                local[index]
            } else {
                shared[index]
            },
    )
}

/// What the camera keeps in view.
#[derive(Clone, Copy, Debug, PartialEq, Eq, Structural)]
pub enum Follow {
    /// The newest part of the snake.
    Snake,
    /// Nothing: the camera stays where it was put.
    Nothing,
    /// The first body.
    Body,
}

impl Follow {
    /// What the camera follows after the next press of the follow key: the
    /// snake, then nothing, then the first body, then the snake again.
    pub open spec fn after(self) -> Follow {
        match self {
            Follow::Snake => Follow::Nothing,
            Follow::Nothing => Follow::Body,
            Follow::Body => Follow::Snake,
        }
    }

    /// What the camera follows after the next press of the follow key.
    pub fn next(self) -> (following: Follow)
        ensures
            following == self.after(),
    {
        match self {
            Follow::Snake => Follow::Nothing,
            Follow::Nothing => Follow::Body,
            Follow::Body => Follow::Snake,
        }
    }
}

/// Everything the two drivers share.
pub struct World<B, S> {
    /// The bodies of the attraction simulation; never empty.
    pub bodies: Vec<B>,
    /// Snapshots of the first body, oldest first.
    pub trail: Vec<S>,
    /// Whether the trail is being recorded.
    pub trailing: bool,
    /// The snake game.
    pub game: Game,
}

impl<B, S> World<B, S> {
    /// There is a first body, and the game is well formed.
    pub open spec fn wf(&self) -> bool {
        &&& self.bodies@.len() >= 1
        &&& self.game.wf()
    }

    /// Whether there is a first body and the game is well formed.
    pub fn is_wf(&self) -> (valid: bool)
        ensures
            valid == self.wf(),
    {
        self.bodies.len() >= 1 && self.game.is_wf()
    }

    /// A world of the given bodies and game, with no trail and not trailing.
    pub fn new(bodies: Vec<B>, game: Game) -> (world: Self)
        ensures
            world.bodies == bodies,
            world.game == game,
            world.trail@ == Seq::<S>::empty(),
            !world.trailing,
    {
        World { bodies, trail: Vec::new(), trailing: false, game }
    }

    /// Adds a body.
    pub fn add_body(&mut self, body: B)
        ensures
            final(self).bodies@ == old(self).bodies@.push(body),
            old(self).wf() ==> final(self).wf(),
            final(self).trail == old(self).trail,
            final(self).trailing == old(self).trailing,
            final(self).game == old(self).game,
    {
        self.bodies.push(body);
    }

    /// Removes every body but the first.
    pub fn reset(&mut self)
        requires
            old(self).bodies@.len() >= 1,
        ensures
            final(self).bodies@ == seq![old(self).bodies@[0]],
            old(self).wf() ==> final(self).wf(),
            final(self).trail == old(self).trail,
            final(self).trailing == old(self).trailing,
            final(self).game == old(self).game,
    {
        self.bodies.truncate(1);
    }

    /// Starts recording the trail, or stops.
    pub fn toggle_trail(&mut self)
        ensures
            final(self).trailing == !old(self).trailing,
            old(self).wf() ==> final(self).wf(),
            final(self).bodies == old(self).bodies,
            final(self).trail == old(self).trail,
            final(self).game == old(self).game,
    {
        self.trailing = !self.trailing;
    }

    /// Forgets the trail recorded so far.
    pub fn clear_trail(&mut self)
        ensures
            final(self).trail@ == Seq::<S>::empty(),
            old(self).wf() ==> final(self).wf(),
            final(self).bodies == old(self).bodies,
            final(self).trailing == old(self).trailing,
            final(self).game == old(self).game,
    {
        self.trail = Vec::new();
    }

    /// Steers the snake towards `chosen`.
    pub fn steer(&mut self, chosen: Position)
        requires
            old(self).game.wf(),
        ensures
            final(self).game.snake.parts@ == old(self).game.snake.parts@,
            final(self).game.snake.direction == if old(self).game.snake.turns_back(chosen)
                || old(self).game.snake.reverses(chosen) {
                old(self).game.snake.direction
            } else {
                chosen
            },
            final(self).game.food == old(self).game.food,
            final(self).game.size == old(self).game.size,
            final(self).game.progress == old(self).game.progress,
            old(self).wf() ==> final(self).wf(),
            final(self).bodies == old(self).bodies,
            final(self).trail == old(self).trail,
            final(self).trailing == old(self).trailing,
    {
        self.game.snake.steer(chosen);
    }

    /// Writes back the bodies the simulation driver has advanced on its own
    /// copy. Bodies added to the world since the copy was taken stay as they
    /// are; bodies removed since are not brought back.
    pub fn commit(&mut self, local: Vec<B>)
        ensures
            final(self).bodies@ == committed(old(self).bodies@, local@),
            old(self).wf() ==> final(self).wf(),
            final(self).trail == old(self).trail,
            final(self).trailing == old(self).trailing,
            final(self).game == old(self).game,
    {
        let mut local = local;
        local.truncate(self.bodies.len());
        let ghost advanced = local@;
        while local.len() > 0
            invariant
                local@.len() <= self.bodies@.len(),
                local@.len() <= advanced.len(),
                local@ == advanced.subrange(0, local@.len() as int),
                self.bodies@.len() == old(self).bodies@.len(),
                forall|index: int|
                    0 <= index < self.bodies@.len() ==> #[trigger] self.bodies@[index] == if index
                        < local@.len() || index >= advanced.len() {
                        old(self).bodies@[index]
                    } else {
                        advanced[index]
                    },
                self.trail == old(self).trail,
                self.trailing == old(self).trailing,
                self.game == old(self).game,
            decreases local@.len(),
        {
            let index = local.len() - 1;
            let body = local.pop().unwrap();
            self.bodies[index] = body;
        }
    }

    /// One tick of the simulation driver, after it has advanced the bodies:
    /// on a step tick the trail takes `snapshot` if it is being recorded and
    /// the game takes a step.
    ///
    /// Returns whether the step spawned food, or `None` on a tick without a step.
    pub fn tick(&mut self, iteration: i32, snapshot: S) -> (stepped: Option<bool>)
        requires
            old(self).wf(),
        ensures
            final(self).wf(),
            final(self).bodies == old(self).bodies,
            final(self).trailing == old(self).trailing,
            final(self).trail@ == sampled(
                old(self).trail@,
                old(self).trailing,
                iteration as int,
                snapshot,
            ),
            final(self).game.progress == iteration % STEP_TICKS,
            stepped is Some <==> is_step(iteration as int),
            stepped matches Some(spawned) ==> final(self).game.ran(
                &old(self).game,
                iteration as int,
                spawned,
            ),
            stepped is None ==> final(self).game.snake == old(self).game.snake
                && final(self).game.food == old(self).game.food
                && final(self).game.size == old(self).game.size,
            old(self).game.settled() ==> final(self).game.settled(),
            old(self).game.tidy() ==> final(self).game.tidy(),
    {
        let stepped = self.game.tick(iteration);
        if stepped.is_some() && self.trailing {
            self.trail.push(snapshot);
        }
        stepped
    }
}

} // verus!
