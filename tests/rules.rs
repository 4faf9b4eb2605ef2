use blockjack::game_state::GameState;
use blockjack::oblivious::{
    card_from_draw, dealer_turn_outcome, game_over, player_turn_outcome, post_deal_outcome,
    random_card,
};
use blockjack::rules::{rate_card, rate_cards};
use blockjack::scalars::{
    decrypt_cards, encrypt_points, encrypt_state, ClearScalars, DrawCounter,
};
use blockjack::secure_game::SecureGameState;

#[test]
fn card_ranks() {
    for card in 2..=10u8 {
        assert_eq!(card, rate_card(card));
    }
    assert_eq!(10, rate_card(11));
    assert_eq!(10, rate_card(12));
    assert_eq!(10, rate_card(13));
    assert_eq!(11, rate_card(14));
}

#[test]
fn encrypted_card_ranks_match_plain_ranks() {
    let scalars = ClearScalars;
    for card in 2..=14u8 {
        let rated = blockjack::oblivious::rate_card(&scalars, &card);
        assert_eq!(rate_card(card), rated);
    }
}

#[test]
fn hand_totals() {
    assert_eq!(0, rate_cards(&[]));
    assert_eq!(22, rate_cards(&[14, 14]));
    assert_eq!(40, rate_cards(&[10, 11, 12, 13]));
    assert_eq!(17, rate_cards(&[8, 9]));
}

#[test]
fn encrypted_hand_totals() {
    let scalars = ClearScalars;
    assert_eq!(0, blockjack::oblivious::rate_cards(&scalars, &[]));
    assert_eq!(22, blockjack::oblivious::rate_cards(&scalars, &[14, 14]));
    assert_eq!(24, blockjack::oblivious::rate_cards(&scalars, &[7, 8, 9]));
}

#[test]
fn phase_codes_round_trip() {
    let states = [
        GameState::Uninitialized,
        GameState::Checking,
        GameState::DealerBusts,
        GameState::DealerWins,
        GameState::PlayerBusts,
        GameState::PlayerWins,
        GameState::Tie,
        GameState::WaitingForDealer,
        GameState::WaitingForPlayer,
    ];
    for (code, state) in states.iter().enumerate() {
        assert_eq!(code as u8, state.code());
        assert_eq!(Ok(*state), GameState::try_from(code as u8));
    }
}

#[test]
fn unknown_phase_codes_are_errors() {
    assert_eq!(Err(()), GameState::try_from(9));
    assert_eq!(Err(()), GameState::try_from(255));
    assert_eq!(Err(()), SecureGameState::try_from(9));
    assert_eq!(Ok(SecureGameState::Tie), SecureGameState::try_from(6));
}

#[test]
fn post_deal_outcomes() {
    let s = ClearScalars;
    assert_eq!(GameState::PlayerWins.code(), post_deal_outcome(&s, &21, &22));
    assert_eq!(GameState::PlayerBusts.code(), post_deal_outcome(&s, &22, &21));
    assert_eq!(GameState::DealerWins.code(), post_deal_outcome(&s, &20, &21));
    assert_eq!(GameState::DealerBusts.code(), post_deal_outcome(&s, &15, &22));
    assert_eq!(GameState::WaitingForPlayer.code(), post_deal_outcome(&s, &13, &17));
}

#[test]
fn player_turn_outcomes() {
    let s = ClearScalars;
    assert_eq!(GameState::PlayerBusts.code(), player_turn_outcome(&s, &22));
    assert_eq!(GameState::WaitingForPlayer.code(), player_turn_outcome(&s, &21));
}

#[test]
fn dealer_turn_outcomes() {
    let s = ClearScalars;
    assert_eq!(GameState::WaitingForDealer.code(), dealer_turn_outcome(&s, &18, &16));
    assert_eq!(GameState::DealerBusts.code(), dealer_turn_outcome(&s, &18, &24));
    assert_eq!(GameState::DealerWins.code(), dealer_turn_outcome(&s, &18, &19));
    assert_eq!(GameState::PlayerWins.code(), dealer_turn_outcome(&s, &20, &17));
    assert_eq!(GameState::Tie.code(), dealer_turn_outcome(&s, &17, &17));
}

#[test]
fn showdown_outcomes() {
    let s = ClearScalars;
    assert_eq!(GameState::DealerWins.code(), game_over(&s, &20, &18));
    assert_eq!(GameState::PlayerWins.code(), game_over(&s, &18, &20));
    assert_eq!(GameState::Tie.code(), game_over(&s, &19, &19));
}

#[test]
fn draw_counter_never_repeats() {
    let counter = DrawCounter::new();
    assert_eq!(0, counter.next_seed());
    assert_eq!(1, counter.next_seed());
    assert_eq!(2, counter.next_seed());
}

#[test]
fn random_cards_are_cards() {
    let s = ClearScalars;
    let counter = DrawCounter::new();
    for _ in 0..200 {
        let card = random_card(&s, &counter);
        assert!((2..=14).contains(&card));
    }
}

#[test]
fn encrypt_and_decrypt_values() {
    let s = ClearScalars;
    assert_eq!(7, encrypt_points(&s, 7));
    assert_eq!(8, encrypt_state(&s, GameState::WaitingForPlayer));
    assert_eq!(2, encrypt_state(&s, GameState::DealerBusts));
    assert_eq!(vec![14, 2, 9], decrypt_cards(&s, &[14, 2, 9]));
}

#[test]
fn draws_map_to_cards() {
    let s = ClearScalars;
    assert_eq!(2, card_from_draw(&s, 0));
    assert_eq!(14, card_from_draw(&s, 12));
    assert_eq!(2, card_from_draw(&s, 13));
    assert_eq!(10, card_from_draw(&s, 255));
}
