use blockjack::scalars::{ClearScalars, DrawCounter};
use blockjack::secure_game::{SecureGame, SecureGameState};

const J: u8 = 11;
const Q: u8 = 12;
const K: u8 = 13;
const A: u8 = 14;

#[test]
fn secure_game_create_game() {
    let scalars = ClearScalars;
    let counter = DrawCounter::new();
    let mut game = SecureGame::new(&scalars, &counter);

    let deck = vec![9, 8, 7, 6];

    game.plant_deck(&deck);
    game.create_game();

    assert_eq!(vec!(6, 7), game.current_state().0);
    assert_eq!(vec!(8, 9), game.current_state().1);
    assert_eq!(SecureGameState::WaitingForPlayer, game.current_state().2);
}

#[test]
fn secure_game_dealer_busts_early() {
    let scalars = ClearScalars;
    let counter = DrawCounter::new();
    let mut game = SecureGame::new(&scalars, &counter);

    let deck = vec![A, A, 8, 7];

    game.plant_deck(&deck);
    game.create_game();

    assert_eq!(vec!(7, 8), game.current_state().0);
    assert_eq!(vec!(A, A), game.current_state().1);
    assert_eq!(SecureGameState::DealerBusts, game.current_state().2);
}

#[test]
fn secure_game_dealer_busts_late() {
    let scalars = ClearScalars;
    let counter = DrawCounter::new();
    let mut game = SecureGame::new(&scalars, &counter);

    let deck = vec![9, 8, 7, 8, 7];

    game.plant_deck(&deck);
    game.create_game();

    assert_eq!(SecureGameState::WaitingForPlayer, game.current_state().2);

    game.stand();

    assert_eq!(SecureGameState::WaitingForDealer, game.current_state().2);

    game.hit_as_dealer();

    assert_eq!(vec!(7, 8), game.current_state().0);
    assert_eq!(vec!(7, 8, 9), game.current_state().1);
    assert_eq!(SecureGameState::DealerBusts, game.current_state().2);
}

#[test]
fn secure_game_dealer_wins() {
    let scalars = ClearScalars;
    let counter = DrawCounter::new();
    let mut game = SecureGame::new(&scalars, &counter);

    let deck = vec![Q, J, 9, 8];

    game.plant_deck(&deck);
    game.create_game();

    assert_eq!(SecureGameState::WaitingForPlayer, game.current_state().2);

    game.stand();

    assert_eq!(vec!(8, 9), game.current_state().0);
    assert_eq!(vec!(J, Q), game.current_state().1);
    assert_eq!(SecureGameState::DealerWins, game.current_state().2);
}

#[test]
fn secure_game_dealer_wins_early() {
    let scalars = ClearScalars;
    let counter = DrawCounter::new();
    let mut game = SecureGame::new(&scalars, &counter);

    let deck = vec![A, K, 7, 6];

    game.plant_deck(&deck);
    game.create_game();

    assert_eq!(vec!(6, 7), game.current_state().0);
    assert_eq!(vec!(K, A), game.current_state().1);
    assert_eq!(SecureGameState::DealerWins, game.current_state().2);
}

#[test]
fn secure_game_dealer_wins_late() {
    let scalars = ClearScalars;
    let counter = DrawCounter::new();
    let mut game = SecureGame::new(&scalars, &counter);

    let deck = vec![8, 7, 6, Q, J];

    game.plant_deck(&deck);
    game.create_game();

    assert_eq!(SecureGameState::WaitingForPlayer, game.current_state().2);

    game.stand();

    assert_eq!(SecureGameState::WaitingForDealer, game.current_state().2);

    game.hit_as_dealer();

    assert_eq!(vec!(J, Q), game.current_state().0);
    assert_eq!(vec!(6, 7, 8), game.current_state().1);
    assert_eq!(SecureGameState::DealerWins, game.current_state().2);
}

#[test]
fn secure_game_game_ends_in_a_tie() {
    let scalars = ClearScalars;
    let counter = DrawCounter::new();
    let mut game = SecureGame::new(&scalars, &counter);

    let deck = vec![9, 8, 9, 8];

    game.plant_deck(&deck);
    game.create_game();

    assert_eq!(SecureGameState::WaitingForPlayer, game.current_state().2);

    game.stand();

    assert_eq!(vec!(8, 9), game.current_state().0);
    assert_eq!(vec!(8, 9), game.current_state().1);
    assert_eq!(SecureGameState::Tie, game.current_state().2);
}

#[test]
fn secure_game_player_busts_early() {
    let scalars = ClearScalars;
    let counter = DrawCounter::new();
    let mut game = SecureGame::new(&scalars, &counter);

    let deck = vec![8, 7, A, A];

    game.plant_deck(&deck);
    game.create_game();

    assert_eq!(vec!(A, A), game.current_state().0);
    assert_eq!(vec!(7, 8), game.current_state().1);
    assert_eq!(SecureGameState::PlayerBusts, game.current_state().2);
}

#[test]
fn secure_game_player_busts_late() {
    let scalars = ClearScalars;
    let counter = DrawCounter::new();
    let mut game = SecureGame::new(&scalars, &counter);

    let deck = vec![9, 8, 7, 8, 7];

    game.plant_deck(&deck);
    game.create_game();

    assert_eq!(SecureGameState::WaitingForPlayer, game.current_state().2);

    game.hit_as_player();

    assert_eq!(vec!(7, 8, 9), game.current_state().0);
    assert_eq!(vec!(7, 8), game.current_state().1);
    assert_eq!(SecureGameState::PlayerBusts, game.current_state().2);
}

#[test]
fn secure_game_player_wins() {
    let scalars = ClearScalars;
    let counter = DrawCounter::new();
    let mut game = SecureGame::new(&scalars, &counter);

    let deck = vec![9, 8, Q, J];

    game.plant_deck(&deck);
    game.create_game();

    assert_eq!(SecureGameState::WaitingForPlayer, game.current_state().2);

    game.stand();

    assert_eq!(vec!(J, Q), game.current_state().0);
    assert_eq!(vec!(8, 9), game.current_state().1);
    assert_eq!(SecureGameState::PlayerWins, game.current_state().2);
}

#[test]
fn secure_game_player_wins_early() {
    let scalars = ClearScalars;
    let counter = DrawCounter::new();
    let mut game = SecureGame::new(&scalars, &counter);

    let deck = vec![7, 6, A, K];

    game.plant_deck(&deck);
    game.create_game();

    assert_eq!(vec!(K, A), game.current_state().0);
    assert_eq!(vec!(6, 7), game.current_state().1);
    assert_eq!(SecureGameState::PlayerWins, game.current_state().2);
}

#[test]
fn secure_game_player_wins_late() {
    let scalars = ClearScalars;
    let counter = DrawCounter::new();
    let mut game = SecureGame::new(&scalars, &counter);

    let deck = vec![8, Q, J, 7, 6];

    game.plant_deck(&deck);
    game.create_game();

    assert_eq!(SecureGameState::WaitingForPlayer, game.current_state().2);

    game.hit_as_player();

    assert_eq!(SecureGameState::WaitingForPlayer, game.current_state().2);

    game.stand();

    assert_eq!(vec!(6, 7, 8), game.current_state().0);
    assert_eq!(vec!(J, Q), game.current_state().1);
    assert_eq!(SecureGameState::PlayerWins, game.current_state().2);
}
