//! The game's phases and the transitions between them.

use vstd::prelude::*;

verus! {

/// A discrete mode of the game.
#[derive(Clone, Copy, Debug, PartialEq, Eq, Hash, Structural)]
pub enum Phase {
    /// Assets are still being loaded.
    AssetLoading,
    /// The main menu is shown.
    MainMenu,
    /// A round is being played.
    InGame,
    /// A round has ended.
    GameOver,
}

/// How the last round ended.
#[derive(Clone, Copy, Debug, PartialEq, Eq, Hash, Structural)]
pub enum GameResult {
    /// No round has ended yet.
    Undecided,
    /// The enemy was destroyed.
    Win,
    /// The player was destroyed.
    Lose,
}

/// Something that can move the game from one phase to another.
#[derive(Clone, Copy, Debug, PartialEq, Eq, Hash, Structural)]
pub enum Signal {
    /// The asset loader has finished.
    AssetsReady,
    /// "Begin" was chosen in the main menu.
    Begin,
    /// "Restart" was chosen on the game-over screen.
    Restart,
    /// The player's health reached zero.
    PlayerDied,
    /// The enemy's health reached zero.
    EnemyDied,
}

/// The phase that follows `phase` on `signal`. A signal that does not apply
/// in `phase` leaves it as it is.
pub open spec fn next_phase(phase: Phase, signal: Signal) -> Phase {
    match (phase, signal) {
        (Phase::AssetLoading, Signal::AssetsReady) => Phase::MainMenu,
        (Phase::MainMenu, Signal::Begin) => Phase::InGame,
        (Phase::InGame, Signal::PlayerDied) => Phase::GameOver,
        (Phase::InGame, Signal::EnemyDied) => Phase::GameOver,
        (Phase::GameOver, Signal::Restart) => Phase::InGame,
        _ => phase,
    }
}

/// The recorded result after `signal` arrives in `phase`: a death during a
/// round decides it, anything else leaves the record alone.
pub open spec fn next_result(result: GameResult, phase: Phase, signal: Signal) -> GameResult {
    match (phase, signal) {
        (Phase::InGame, Signal::PlayerDied) => GameResult::Lose,
        (Phase::InGame, Signal::EnemyDied) => GameResult::Win,
        _ => result,
    }
}

/// The signal that reports how a round ended.
pub open spec fn signal_of(result: GameResult) -> Option<Signal> {
    match result {
        GameResult::Undecided => None,
        GameResult::Win => Some(Signal::EnemyDied),
        GameResult::Lose => Some(Signal::PlayerDied),
    }
}

/// Computes the phase that follows `phase` on `signal`.
pub fn advance(phase: Phase, signal: Signal) -> (next: Phase)
    ensures
        next == next_phase(phase, signal),
{
    match (phase, signal) {
        (Phase::AssetLoading, Signal::AssetsReady) => Phase::MainMenu,
        (Phase::MainMenu, Signal::Begin) => Phase::InGame,
        (Phase::InGame, Signal::PlayerDied) => Phase::GameOver,
        (Phase::InGame, Signal::EnemyDied) => Phase::GameOver,
        (Phase::GameOver, Signal::Restart) => Phase::InGame,
        _ => phase,
    }
}

/// Computes the recorded result after `signal` arrives in `phase`.
pub fn decide(result: GameResult, phase: Phase, signal: Signal) -> (next: GameResult)
    ensures
        next == next_result(result, phase, signal),
{
    match (phase, signal) {
        (Phase::InGame, Signal::PlayerDied) => GameResult::Lose,
        (Phase::InGame, Signal::EnemyDied) => GameResult::Win,
        _ => result,
    }
}

/// The phase reached from `phase` by a sequence of signals.
pub open spec fn phase_after(phase: Phase, signals: Seq<Signal>) -> Phase
    decreases signals.len(),
{
    if signals.len() == 0 {
        phase
    } else {
        next_phase(phase_after(phase, signals.drop_last()), signals.last())
    }
}

/// No phase is terminal: from each one some signal leads elsewhere.
pub proof fn lemma_no_terminal_phase(phase: Phase)
    ensures
        exists|signal: Signal| #[trigger] next_phase(phase, signal) != phase,
{
    match phase {
        Phase::AssetLoading => {
            assert(next_phase(phase, Signal::AssetsReady) != phase);
        },
        Phase::MainMenu => {
            assert(next_phase(phase, Signal::Begin) != phase);
        },
        Phase::InGame => {
            assert(next_phase(phase, Signal::PlayerDied) != phase);
        },
        Phase::GameOver => {
            assert(next_phase(phase, Signal::Restart) != phase);
        },
    }
}

/// The only way out of the game-over phase leads back into a round, and
/// once loading is over no sequence of signals returns to it or, after the
/// menu has been left, to the menu.
pub proof fn lemma_rounds_loop(phase: Phase, signals: Seq<Signal>)
    ensures
        phase != Phase::AssetLoading ==> phase_after(phase, signals) != Phase::AssetLoading,
        phase == Phase::InGame || phase == Phase::GameOver ==> phase_after(phase, signals)
            == Phase::InGame || phase_after(phase, signals) == Phase::GameOver,
    decreases signals.len(),
{
    if signals.len() > 0 {
        lemma_rounds_loop(phase, signals.drop_last());
    }
}

} // verus!
