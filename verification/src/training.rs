use vstd::prelude::*;

verus! {

/// How many landmarks a learning agent heads for, one after the other.
pub const LANDMARK_COUNT: usize = 3;

/// An agent's weights are saved once every this many episodes.
pub const SAVE_PERIOD: usize = 100;

/// What happened to an agent in one move.
#[derive(Clone, Copy, Debug, PartialEq, Eq, Structural)]
pub struct StepEvent {
    /// It fell below the world.
    pub fell: bool,
    /// It went past the end of the course.
    pub past_end: bool,
    /// It is in the goal zone.
    pub in_goal: bool,
    /// Its time for this life ran out.
    pub timed_out: bool,
}

/// Which reward an agent earns for a move.
#[derive(Clone, Copy, Debug, PartialEq, Eq, Structural)]
pub enum RewardKind {
    /// It fell: the worst reward.
    Fell,
    /// The life ended in the goal zone: the best reward.
    ReachedGoal,
    /// Its time ran out.
    TimedOut,
    /// The life goes on: rewarded by how much nearer the landmark it came.
    Progress,
}

/// What follows from a move.
#[derive(Clone, Copy, Debug, PartialEq, Eq, Structural)]
pub struct StepOutcome {
    /// The agent goes back to its respawn point.
    pub respawn: bool,
    /// The move ends the life (the transition is terminal).
    pub terminal: bool,
    pub reward: RewardKind,
}

/// Whether the move ends the agent's life by where it is.
pub open spec fn terminated(ev: StepEvent) -> bool {
    ev.fell || ev.past_end
}

/// What follows from a move with event `ev`.
pub open spec fn step_outcome(ev: StepEvent) -> StepOutcome {
    let ended = terminated(ev) || ev.timed_out;
    StepOutcome {
        respawn: ended,
        terminal: ended,
        reward: if terminated(ev) && ev.fell {
            RewardKind::Fell
        } else if terminated(ev) && ev.in_goal {
            RewardKind::ReachedGoal
        } else if ev.timed_out {
            RewardKind::TimedOut
        } else {
            RewardKind::Progress
        },
    }
}

/// The landmark an agent heads for after reaching (or not) the one at `progress`.
pub open spec fn next_landmark(progress: nat, reached: bool) -> nat {
    if reached && progress + 1 < LANDMARK_COUNT {
        progress + 1
    } else {
        progress
    }
}

/// Reaching a landmark moves the agent on to the next one and never past the
/// last; not reaching it changes nothing.
pub proof fn lemma_landmarks_in_order(progress: nat, reached: bool)
    requires
        progress < LANDMARK_COUNT,
    ensures
        next_landmark(progress, reached) < LANDMARK_COUNT,
        next_landmark(progress, reached) == progress || next_landmark(progress, reached)
            == progress + 1,
        !reached ==> next_landmark(progress, reached) == progress,
        reached && progress + 1 < LANDMARK_COUNT ==> next_landmark(progress, reached) == progress
            + 1,
        reached && progress + 1 == LANDMARK_COUNT ==> next_landmark(progress, reached)
            == progress,
{
}

/// What follows from a move, from its event alone: the life ends (and the
/// agent respawns) when it fell, passed the end or ran out of time; the reward
/// is the fall's whenever it fell, the goal's when it passed the end in the
/// goal zone without falling, the time-out's when it otherwise ran out of
/// time, and progress in every other case.
pub proof fn lemma_step_outcome_exact(ev: StepEvent)
    ensures
        step_outcome(ev).respawn == (ev.fell || ev.past_end || ev.timed_out),
        step_outcome(ev).terminal == (ev.fell || ev.past_end || ev.timed_out),
        (step_outcome(ev).reward == RewardKind::Fell) == ev.fell,
        (step_outcome(ev).reward == RewardKind::ReachedGoal) == (!ev.fell && ev.past_end
            && ev.in_goal),
        (step_outcome(ev).reward == RewardKind::TimedOut) == (!ev.fell && !(ev.past_end
            && ev.in_goal) && ev.timed_out),
        (step_outcome(ev).reward == RewardKind::Progress) == (!ev.fell && !(ev.past_end
            && ev.in_goal) && !ev.timed_out),
{
}

/// A fall always ends the life with the worst reward; a move that neither
/// ends the life nor runs out of time is rewarded by progress and keeps the
/// agent where it is.
pub proof fn lemma_step_outcome(ev: StepEvent)
    ensures
        ev.fell ==> step_outcome(ev).respawn && step_outcome(ev).reward == RewardKind::Fell,
        step_outcome(ev).respawn == step_outcome(ev).terminal,
        !ev.fell && !ev.past_end && !ev.timed_out ==> !step_outcome(ev).respawn
            && step_outcome(ev).reward == RewardKind::Progress,
        step_outcome(ev).reward == RewardKind::ReachedGoal ==> step_outcome(ev).respawn,
{
}

/// The training state of a learning agent: how many episodes it has run and
/// which landmark it heads for.
pub struct AgentProgress {
    episode: usize,
    progress: usize,
}

impl AgentProgress {
    /// The landmark it heads for is always one of the landmarks.
    #[verifier::type_invariant]
    spec fn inv(self) -> bool {
        self.progress < LANDMARK_COUNT
    }

    pub closed spec fn episode_count(self) -> nat {
        self.episode as nat
    }

    pub closed spec fn landmark_index(self) -> nat {
        self.progress as nat
    }

    /// No episode run, heading for the first landmark.
    pub fn new() -> (res: Self)
        ensures
            res.episode_count() == 0,
            res.landmark_index() == 0,
    {
        AgentProgress { episode: 0, progress: 0 }
    }

    /// How many episodes it has run.
    pub fn episode(&self) -> (res: usize)
        ensures
            res == self.episode_count(),
    {
        self.episode
    }

    /// The position of the landmark it heads for.
    pub fn progress(&self) -> (res: usize)
        ensures
            res == self.landmark_index(),
            res < LANDMARK_COUNT,
    {
        proof {
            use_type_invariant(self);
        }
        self.progress
    }

    /// Takes in what a move did: a life that ends (by falling, passing the
    /// end, or running out of time) sends the agent back to its respawn point,
    /// heading for the first landmark again.
    pub fn after_move(&mut self, ev: StepEvent) -> (res: StepOutcome)
        ensures
            res == step_outcome(ev),
            res.respawn == (ev.fell || ev.past_end || ev.timed_out),
            res.terminal == res.respawn,
            (res.reward == RewardKind::Fell) == ev.fell,
            (res.reward == RewardKind::ReachedGoal) == (!ev.fell && ev.past_end && ev.in_goal),
            (res.reward == RewardKind::TimedOut) == (!ev.fell && !(ev.past_end && ev.in_goal)
                && ev.timed_out),
            final(self).episode_count() == old(self).episode_count(),
            final(self).landmark_index() == (if res.respawn {
                0
            } else {
                old(self).landmark_index()
            }),
    {
        let terminated = ev.fell || ev.past_end;
        let truncated = ev.timed_out;
        let ended = terminated || truncated;
        if ended {
            self.progress = 0;
        }
        let reward = if terminated && ev.fell {
            RewardKind::Fell
        } else if terminated && ev.in_goal {
            RewardKind::ReachedGoal
        } else if truncated {
            RewardKind::TimedOut
        } else {
            RewardKind::Progress
        };
        StepOutcome { respawn: ended, terminal: ended, reward }
    }

    /// Takes in whether the agent came near the landmark it heads for: then
    /// it heads for the next one, or stays with the last.
    pub fn record_landmark(&mut self, reached: bool)
        ensures
            final(self).episode_count() == old(self).episode_count(),
            final(self).landmark_index() == next_landmark(old(self).landmark_index(), reached),
    {
        proof {
            use_type_invariant(&*self);
        }
        if reached && self.progress + 1 < LANDMARK_COUNT {
            self.progress = self.progress + 1;
        }
    }

    /// Counts a finished episode, and tells whether the weights are to be
    /// saved now (once every `SAVE_PERIOD` episodes).
    pub fn finish_episode(&mut self) -> (save: bool)
        requires
            old(self).episode_count() < usize::MAX,
        ensures
            final(self).episode_count() == old(self).episode_count() + 1,
            final(self).landmark_index() == old(self).landmark_index(),
            save == (final(self).episode_count() % (SAVE_PERIOD as nat) == 0),
    {
        proof {
            use_type_invariant(&*self);
        }
        self.episode = self.episode + 1;
        self.episode % SAVE_PERIOD == 0
    }
}

} // verus!
