//! The decisions of the poll loop: when to run a round, when to sleep, and
//! when to stop. The loop itself, with its sleeping and fetching, runs
//! outside; it hands each event here and performs the action it gets back.
use vstd::prelude::*;

verus! {

/// Where the poll loop stands.
#[derive(Clone, Copy, Debug, PartialEq, Eq, Structural)]
pub enum LoopState {
    /// No loop runs.
    Idle,
    /// A loop runs: `round` rounds are done, and `slept` of the `interval`
    /// seconds between two rounds have passed.
    Running { round: u64, interval: u64, slept: u64 },
}

/// What happened.
#[derive(Clone, Copy, Debug, PartialEq, Eq, Structural)]
pub enum LoopEvent {
    /// The user asks for a loop with rounds `interval` seconds apart.
    Start { interval: u64 },
    /// A round finished.
    RoundDone,
    /// One second of sleep passed without a cancellation.
    SecondPassed,
    /// The user asks the loop to stop.
    Cancel,
    /// The session that fetches snapshots is gone.
    FetcherGone,
}

/// What the loop is to do next.
#[derive(Clone, Copy, Debug, PartialEq, Eq, Structural)]
pub enum LoopAction {
    /// Fetch a snapshot and run a round.
    RunRound,
    /// Sleep one second, then check for a cancellation.
    SleepOneSecond,
    /// End the loop.
    Stop,
    /// The event does not apply to this state; nothing changes.
    Reject,
}

/// The state and action after `event` in state `s`.
pub fn loop_step(s: LoopState, event: LoopEvent) -> (r: (LoopState, LoopAction))
    ensures
        match (s, event) {
            (LoopState::Idle, LoopEvent::Start { interval }) => r == (
                LoopState::Running { round: 0, interval, slept: 0 },
                LoopAction::RunRound,
            ),
            (LoopState::Idle, _) => r == (LoopState::Idle, LoopAction::Reject),
            (LoopState::Running { .. }, LoopEvent::Start { .. }) => r == (s, LoopAction::Reject),
            (LoopState::Running { .. }, LoopEvent::Cancel) => r == (
                LoopState::Idle,
                LoopAction::Stop,
            ),
            (LoopState::Running { .. }, LoopEvent::FetcherGone) => r == (
                LoopState::Idle,
                LoopAction::Stop,
            ),
            (LoopState::Running { round, interval, .. }, LoopEvent::RoundDone) => r == (
                LoopState::Running {
                    round: if round < u64::MAX {
                        (round + 1) as u64
                    } else {
                        round
                    },
                    interval,
                    slept: 0,
                },
                if interval == 0 {
                    LoopAction::RunRound
                } else {
                    LoopAction::SleepOneSecond
                },
            ),
            (LoopState::Running { round, interval, slept }, LoopEvent::SecondPassed) => {
                let now = if slept < u64::MAX {
                    (slept + 1) as u64
                } else {
                    slept
                };
                r == (
                    LoopState::Running { round, interval, slept: now },
                    if now >= interval {
                        LoopAction::RunRound
                    } else {
                        LoopAction::SleepOneSecond
                    },
                )
            },
        },
{
    match s {
        LoopState::Idle => match event {
            LoopEvent::Start { interval } => (
                LoopState::Running { round: 0, interval, slept: 0 },
                LoopAction::RunRound,
            ),
            _ => (LoopState::Idle, LoopAction::Reject),
        },
        LoopState::Running { round, interval, slept } => match event {
            LoopEvent::Start { .. } => (s, LoopAction::Reject),
            LoopEvent::Cancel => (LoopState::Idle, LoopAction::Stop),
            LoopEvent::FetcherGone => (LoopState::Idle, LoopAction::Stop),
            LoopEvent::RoundDone => {
                let next = if round < u64::MAX {
                    round + 1
                } else {
                    round
                };
                let action = if interval == 0 {
                    LoopAction::RunRound
                } else {
                    LoopAction::SleepOneSecond
                };
                (LoopState::Running { round: next, interval, slept: 0 }, action)
            },
            LoopEvent::SecondPassed => {
                let now = if slept < u64::MAX {
                    slept + 1
                } else {
                    slept
                };
                let action = if now >= interval {
                    LoopAction::RunRound
                } else {
                    LoopAction::SleepOneSecond
                };
                (LoopState::Running { round, interval, slept: now }, action)
            },
        },
    }
}

} // verus!
