//! A level being played: its grid and exercises, and the timer that paces
//! ticks, driven by frames and by the player's buttons.
use vstd::prelude::*;
use crate::exercises::{ExerciseOutcome, TickReport, spawn_level, stepped};
use crate::resources::same_exercises;
use crate::rules::needs_update;
use crate::resources::{Counter, World, WorldState};

verus! {

/// The player's buttons on a level.
#[derive(Clone, Copy, Debug, PartialEq, Eq, Structural)]
pub enum LevelActions {
    /// Back to the list of levels.
    Menu,
    Pause,
    /// Run, one tick every so many milliseconds.
    Play(u64),
    Restart,
}

/// The timer that paces ticks, one second by default.
pub const DEFAULT_INTERVAL_MS: u64 = 1000;

pub struct Session {
    pub counter: Counter,
    pub state: WorldState,
}

impl Session {
    pub open spec fn ready(&self) -> bool {
        self.state.ready()
    }

    /// A level ready to play, its timer paused.
    pub fn new(world: &World) -> (r: Session)
        requires
            world.wf(),
        ensures
            r.ready(),
            r.counter == (Counter { interval_ms: DEFAULT_INTERVAL_MS, elapsed_ms: 0, paused: true }),
            !r.state.lock,
            r.state.size == world.size,
            same_exercises(r.state.exercises@, world.exercises@),
            r.state.electron_available == world.electron_available,
            world.exercises@.len() > 0 ==> r.state.entered(0, world.map@),
            world.exercises@.len() == 0 ==> {
                &&& r.state.exercise is None
                &&& r.state.map@ == world.map@
                &&& forall|i: int|
                    0 <= i < r.state.map@.len() ==> (#[trigger] r.state.queued@[i]
                        <==> needs_update(r.state.map@, r.state.width(), r.state.height(), i))
            },
    {
        let mut counter = Counter::new(DEFAULT_INTERVAL_MS);
        counter.pause();
        Session { counter, state: spawn_level(world) }
    }

    /// Lets `delta_ms` milliseconds pass; when the timer fires, the level
    /// takes one tick (see [`WorldState::step`]), and a failed exercise
    /// pauses the timer.
    pub fn frame(&mut self, delta_ms: u64) -> (r: Option<TickReport>)
        requires
            old(self).ready(),
        ensures
            final(self).ready(),
            old(self).counter.paused ==> r is None && final(self).counter == old(self).counter,
            r is None ==> final(self).state == old(self).state,
            r matches Some(report) ==> stepped(old(self).state, final(self).state, report),
            !old(self).counter.paused ==> (r is Some <==> old(self).counter.elapsed_ms + delta_ms
                >= old(self).counter.interval_ms),
            r matches Some(report) ==> (report.outcome == ExerciseOutcome::Failed
                <==> final(self).counter.paused),
            final(self).state.size == old(self).state.size,
    {
        if self.counter.tick(delta_ms) {
            let report = self.state.step();
            if report.outcome == ExerciseOutcome::Failed {
                self.counter.pause();
            }
            Some(report)
        } else {
            None
        }
    }

    /// Handles a button; returns whether the player asked to leave the level.
    pub fn button_click(&mut self, action: LevelActions) -> (leave: bool)
        requires
            old(self).ready(),
        ensures
            final(self).ready(),
            leave == (action == LevelActions::Menu),
            action == LevelActions::Menu ==> final(self).counter == old(self).counter
                && final(self).state == old(self).state,
            action == LevelActions::Pause ==> final(self).counter == (Counter {
                paused: true,
                ..old(self).counter
            }) && final(self).state == old(self).state,
            action matches LevelActions::Play(ms) ==> final(self).counter == (Counter {
                paused: false,
                interval_ms: ms,
                ..old(self).counter
            }) && final(self).state.lock == (old(self).state.exercises@.len() > 0)
                && final(self).state.map@ == old(self).state.map@,
            action == LevelActions::Restart ==> final(self).counter.paused
                && (old(self).state.exercises@.len() > 0 ==> final(self).state.entered(
                0,
                old(self).state.map@,
            )),
    {
        match action {
            LevelActions::Menu => true,
            LevelActions::Pause => {
                self.counter.pause();
                false
            },
            LevelActions::Play(ms) => {
                self.counter.unpause();
                self.counter.set_duration(ms);
                self.state.play();
                false
            },
            LevelActions::Restart => {
                self.counter.pause();
                self.state.restart();
                false
            },
        }
    }
}

} // verus!
