//! The hand scorer and the rule chain shared by every evaluator.
use crate::game_state::GameState;
use vstd::prelude::*;

verus! {

/// A hand with this total wins outright.
pub const BLACKJACK: u8 = 21;

/// The dealer keeps drawing while its total is below this.
pub const DEALER_STANDS_AT: u8 = 17;

/// A card is a value in `2..=14`: face value up to 10, then jack, queen,
/// king and ace.
pub open spec fn is_card(card: u8) -> bool {
    2 <= card <= 14
}

pub open spec fn all_cards(cards: Seq<u8>) -> bool {
    forall|i: int| 0 <= i < cards.len() ==> is_card(#[trigger] cards[i])
}

/// Points of one card: 2 to 10 score their value, jack, queen and king score
/// 10, an ace always scores 11.
pub open spec fn rank(card: u8) -> nat {
    if card < 11 {
        card as nat
    } else if card < 14 {
        10
    } else {
        11
    }
}

/// The total of a hand: the sum of the points of its cards.
pub open spec fn score(hand: Seq<u8>) -> nat
    decreases hand.len(),
{
    if hand.len() == 0 {
        0
    } else {
        score(hand.drop_last()) + rank(hand.last())
    }
}

/// Outcome of the check after the first two cards of each side. The player's
/// hand is judged before the dealer's.
pub open spec fn post_deal_rule(player: nat, dealer: nat) -> GameState {
    if player == BLACKJACK {
        GameState::PlayerWins
    } else if player > BLACKJACK {
        GameState::PlayerBusts
    } else if dealer == BLACKJACK {
        GameState::DealerWins
    } else if dealer > BLACKJACK {
        GameState::DealerBusts
    } else {
        GameState::WaitingForPlayer
    }
}

/// Outcome of the check after the player drew a card.
pub open spec fn player_turn_rule(player: nat) -> GameState {
    if player > BLACKJACK {
        GameState::PlayerBusts
    } else {
        GameState::WaitingForPlayer
    }
}

/// Comparison of two totals that both stand: the higher wins, equal is a tie.
pub open spec fn showdown_rule(dealer: nat, player: nat) -> GameState {
    if dealer > player {
        GameState::DealerWins
    } else if dealer < player {
        GameState::PlayerWins
    } else {
        GameState::Tie
    }
}

/// Outcome of the check after the player stood or the dealer drew a card.
pub open spec fn dealer_turn_rule(player: nat, dealer: nat) -> GameState {
    if dealer < DEALER_STANDS_AT {
        GameState::WaitingForDealer
    } else if dealer > BLACKJACK {
        GameState::DealerBusts
    } else {
        showdown_rule(dealer, player)
    }
}

pub proof fn lemma_rank_bounds(card: u8)
    ensures
        rank(card) <= 11,
        is_card(card) ==> 2 <= rank(card),
{
}

/// A hand of `n` cards scores between `2 * n` and `11 * n`.
pub proof fn lemma_score_bounds(hand: Seq<u8>)
    ensures
        score(hand) <= 11 * hand.len(),
        all_cards(hand) ==> 2 * hand.len() <= score(hand),
    decreases hand.len(),
{
    if hand.len() > 0 {
        lemma_score_bounds(hand.drop_last());
        lemma_rank_bounds(hand.last());
        assert(all_cards(hand) ==> all_cards(hand.drop_last()));
    }
}

/// Appending a card adds its points.
pub proof fn lemma_score_push(hand: Seq<u8>, card: u8)
    ensures
        score(hand.push(card)) == score(hand) + rank(card),
{
    assert(hand.push(card).drop_last() =~= hand);
}

/// A side that goes over 21 busts at the check that follows: the player at
/// either of its checks, the dealer at its own turn.
pub proof fn lemma_player_bust(player: nat, dealer: nat)
    requires
        player > BLACKJACK,
    ensures
        post_deal_rule(player, dealer) == GameState::PlayerBusts,
        player_turn_rule(player) == GameState::PlayerBusts,
{
}

/// A dealer over 21 busts at its own turn.
pub proof fn lemma_dealer_bust(player: nat, dealer: nat)
    requires
        dealer > BLACKJACK,
    ensures
        dealer_turn_rule(player, dealer) == GameState::DealerBusts,
{
}

/// A dealer over 21 after the deal busts, unless the player's hand, judged
/// first, already decided the game.
pub proof fn lemma_dealer_bust_after_deal(player: nat, dealer: nat)
    requires
        dealer > BLACKJACK,
        player < BLACKJACK,
    ensures
        post_deal_rule(player, dealer) == GameState::DealerBusts,
{
}

/// At the dealer's turn the dealer must draw again exactly while its total is
/// below 17.
pub proof fn lemma_dealer_draws_below_seventeen(player: nat, dealer: nat)
    ensures
        (dealer_turn_rule(player, dealer) == GameState::WaitingForDealer) <==> dealer
            < DEALER_STANDS_AT,
{
}

/// Points of one card.
pub fn rate_card(card: u8) -> (r: u8)
    ensures
        r == rank(card),
        2 <= card <= 10 ==> r == card,
        11 <= card <= 13 ==> r == 10,
        card == 14 ==> r == 11,
{
    if card < 11 {
        card
    } else if card < 14 {
        10
    } else {
        11
    }
}

/// Total of a hand. A hand of at most 23 cards keeps its total within a byte.
pub fn rate_cards(cards: &[u8]) -> (r: u8)
    requires
        cards@.len() <= 23,
    ensures
        r == score(cards@),
{
    let mut total: u8 = 0;
    let mut i: usize = 0;
    while i < cards.len()
        invariant
            i <= cards@.len() <= 23,
            total == score(cards@.subrange(0, i as int)),
        decreases cards@.len() - i,
    {
        let prefix = Ghost(cards@.subrange(0, i as int));
        proof {
            lemma_score_bounds(prefix@);
            lemma_score_push(prefix@, cards@[i as int]);
            lemma_rank_bounds(cards@[i as int]);
            assert(cards@.subrange(0, i + 1) =~= prefix@.push(cards@[i as int]));
        }
        total = total + rate_card(cards[i]);
        i = i + 1;
    }
    assert(cards@.subrange(0, i as int) =~= cards@);
    total
}

} // verus!
