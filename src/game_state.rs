use vstd::prelude::*;

verus! {

/// The phase of one game. The same codes are used by every evaluator of the
/// rules: an encrypted evaluation yields the code of its outcome, which is
/// decoded by `try_from`.
#[derive(Clone, Copy, Debug, PartialEq, Eq, Hash, Structural)]
pub enum GameState {
    Uninitialized,
    Checking,
    DealerBusts,
    DealerWins,
    PlayerBusts,
    PlayerWins,
    Tie,
    WaitingForDealer,
    WaitingForPlayer,
}

/// The code of each phase, as carried through an encrypted evaluation.
pub open spec fn code_of(state: GameState) -> u8 {
    match state {
        GameState::Uninitialized => 0,
        GameState::Checking => 1,
        GameState::DealerBusts => 2,
        GameState::DealerWins => 3,
        GameState::PlayerBusts => 4,
        GameState::PlayerWins => 5,
        GameState::Tie => 6,
        GameState::WaitingForDealer => 7,
        GameState::WaitingForPlayer => 8,
    }
}

/// The phase with a given code, if there is one.
pub open spec fn state_of_code(value: u8) -> Option<GameState> {
    if value == 0 {
        Some(GameState::Uninitialized)
    } else if value == 1 {
        Some(GameState::Checking)
    } else if value == 2 {
        Some(GameState::DealerBusts)
    } else if value == 3 {
        Some(GameState::DealerWins)
    } else if value == 4 {
        Some(GameState::PlayerBusts)
    } else if value == 5 {
        Some(GameState::PlayerWins)
    } else if value == 6 {
        Some(GameState::Tie)
    } else if value == 7 {
        Some(GameState::WaitingForDealer)
    } else if value == 8 {
        Some(GameState::WaitingForPlayer)
    } else {
        None
    }
}

/// Decoding inverts encoding.
pub proof fn lemma_code_round_trip(state: GameState)
    ensures
        state_of_code(code_of(state)) == Some(state),
{
}

/// Encoding inverts decoding, and the codes are exactly `0..=8`.
pub proof fn lemma_decode_round_trip(value: u8)
    ensures
        state_of_code(value) is Some <==> value <= 8,
        state_of_code(value) matches Some(s) ==> code_of(s) == value,
{
}

impl GameState {
    /// The code of this phase.
    pub fn code(&self) -> (r: u8)
        ensures
            r == code_of(*self),
    {
        match self {
            GameState::Uninitialized => 0,
            GameState::Checking => 1,
            GameState::DealerBusts => 2,
            GameState::DealerWins => 3,
            GameState::PlayerBusts => 4,
            GameState::PlayerWins => 5,
            GameState::Tie => 6,
            GameState::WaitingForDealer => 7,
            GameState::WaitingForPlayer => 8,
        }
    }

    /// Decodes a phase code; a value outside the codes is an error.
    pub fn try_from(value: u8) -> (r: Result<GameState, ()>)
        ensures
            r is Ok <==> state_of_code(value) is Some,
            r matches Ok(s) ==> state_of_code(value) == Some(s),
    {
        match value {
            0 => Ok(GameState::Uninitialized),
            1 => Ok(GameState::Checking),
            2 => Ok(GameState::DealerBusts),
            3 => Ok(GameState::DealerWins),
            4 => Ok(GameState::PlayerBusts),
            5 => Ok(GameState::PlayerWins),
            6 => Ok(GameState::Tie),
            7 => Ok(GameState::WaitingForDealer),
            8 => Ok(GameState::WaitingForPlayer),
            _ => Err(()),
        }
    }

    /// Whether the game is over.
    pub open spec fn is_final(self) -> bool {
        match self {
            GameState::DealerBusts | GameState::DealerWins | GameState::PlayerBusts
            | GameState::PlayerWins | GameState::Tie => true,
            _ => false,
        }
    }
}

} // verus!
