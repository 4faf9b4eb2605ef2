//! The plain engine: the rules evaluated on clear card values, with ordinary
//! branches. It is the reference that the encrypted engines agree with.
use crate::game_state::GameState;
use crate::rules::{
    all_cards, dealer_turn_rule, is_card, player_turn_rule, post_deal_rule, rate_cards, score,
    showdown_rule, BLACKJACK, DEALER_STANDS_AT,
};
use crate::table::{
    all_equal, lemma_score_all_equal, lemma_step_all_equal,
    added, allowed, draws, fresh_table, grown, lemma_added_push, lemma_draws_concat,
    lemma_draws_next, lemma_hands_small, lemma_step_wf, step, table_wf, Action, Table,
};
use crate::random::{next_random, seeded_rng};
use rand_chacha::ChaCha8Rng;
use vstd::prelude::*;

verus! {

/// Phase of a plain game.
#[derive(Clone, Copy, Debug, PartialEq, Eq, Structural)]
pub enum NaiveGameState {
    Uninitialized,
    Checking,
    DealerBusts,
    DealerWins,
    PlayerBusts,
    PlayerWins,
    Tie,
    WaitingForDealer,
    WaitingForPlayer,
}

impl NaiveGameState {
    /// The phase that this value names.
    pub open spec fn phase(self) -> GameState {
        match self {
            NaiveGameState::Uninitialized => GameState::Uninitialized,
            NaiveGameState::Checking => GameState::Checking,
            NaiveGameState::DealerBusts => GameState::DealerBusts,
            NaiveGameState::DealerWins => GameState::DealerWins,
            NaiveGameState::PlayerBusts => GameState::PlayerBusts,
            NaiveGameState::PlayerWins => GameState::PlayerWins,
            NaiveGameState::Tie => GameState::Tie,
            NaiveGameState::WaitingForDealer => GameState::WaitingForDealer,
            NaiveGameState::WaitingForPlayer => GameState::WaitingForPlayer,
        }
    }
}

/// One game on clear values. Cards that the planted deck cannot supply are
/// drawn from a seeded ChaCha generator.
pub struct NaiveGame {
    cards_for_dealer: Vec<u8>,
    cards_for_player: Vec<u8>,
    deck: Vec<u8>,
    rng: ChaCha8Rng,
    state: NaiveGameState,
}

impl View for NaiveGame {
    type V = Table;

    closed spec fn view(&self) -> Table {
        Table {
            player: self.cards_for_player@,
            dealer: self.cards_for_dealer@,
            deck: self.deck@,
            state: self.state.phase(),
        }
    }
}

impl NaiveGame {
    /// The generator that draws from an exhausted shoe.
    pub closed spec fn generator(&self) -> ChaCha8Rng {
        self.rng
    }

    fn check_dealer(&mut self)
        requires
            old(self)@.player.len() <= 23,
            old(self)@.dealer.len() <= 23,
        ensures
            final(self)@ == (Table {
                state: dealer_turn_rule(score(old(self)@.player), score(old(self)@.dealer)),
                ..old(self)@
            }),
            final(self).rng == old(self).rng,
    {
        self.state = NaiveGameState::Checking;

        let points_for_player = rate_cards(self.cards_for_player.as_slice());
        let points_for_dealer = rate_cards(self.cards_for_dealer.as_slice());

        self.state = if points_for_dealer < DEALER_STANDS_AT {
            NaiveGameState::WaitingForDealer
        } else {
            if points_for_dealer > BLACKJACK {
                NaiveGameState::DealerBusts
            } else {
                self.game_over(points_for_dealer, points_for_player)
            }
        };
    }

    fn check_dealer_and_player(&mut self)
        requires
            old(self)@.player.len() <= 23,
            old(self)@.dealer.len() <= 23,
        ensures
            final(self)@ == (Table {
                state: post_deal_rule(score(old(self)@.player), score(old(self)@.dealer)),
                ..old(self)@
            }),
            final(self).rng == old(self).rng,
    {
        self.state = NaiveGameState::Checking;

        let points_for_player = rate_cards(self.cards_for_player.as_slice());
        let points_for_dealer = rate_cards(self.cards_for_dealer.as_slice());

        self.state = if points_for_player == BLACKJACK {
            NaiveGameState::PlayerWins
        } else {
            if points_for_player > BLACKJACK {
                NaiveGameState::PlayerBusts
            } else {
                if points_for_dealer == BLACKJACK {
                    NaiveGameState::DealerWins
                } else {
                    if points_for_dealer > BLACKJACK {
                        NaiveGameState::DealerBusts
                    } else {
                        NaiveGameState::WaitingForPlayer
                    }
                }
            }
        }
    }

    fn check_player(&mut self)
        requires
            old(self)@.player.len() <= 23,
        ensures
            final(self)@ == (Table { state: player_turn_rule(score(old(self)@.player)), ..old(self)@ }),
            final(self).rng == old(self).rng,
    {
        self.state = NaiveGameState::Checking;

        let points_for_player = rate_cards(self.cards_for_player.as_slice());

        self.state = if points_for_player > BLACKJACK {
            NaiveGameState::PlayerBusts
        } else {
            NaiveGameState::WaitingForPlayer
        };
    }

    /// Deals two cards to the player, then two to the dealer, and runs the
    /// check after the deal.
    pub fn create_game(&mut self)
        requires
            table_wf(old(self)@),
            allowed(old(self)@, Action::Start),
        ensures
            table_wf(final(self)@),
            step(old(self)@, Action::Start, final(self)@),
    {
        let ghost t = self@;
        self.deal_player(2);
        let ghost mid = self@;
        self.deal_dealer(2);
        proof {
            lemma_draws_concat(
                t.deck,
                added(t.player, mid.player),
                mid.deck,
                added(t.dealer, self@.dealer),
                self@.deck,
            );
        }
        self.check_dealer_and_player();
        proof {
            lemma_step_wf(t, Action::Start, self@);
        }
    }

    /// Takes the next card: the last planted one while any is left, else a
    /// fresh random card.
    fn draw(&mut self) -> (card: u8)
        ensures
            old(self)@.deck.len() > 0 ==> card == old(self)@.deck.last()
                && final(self)@.deck == old(self)@.deck.drop_last(),
            old(self)@.deck.len() == 0 ==> is_card(card) && final(self)@.deck == old(self)@.deck,
            final(self)@.player == old(self)@.player,
            final(self)@.dealer == old(self)@.dealer,
            final(self)@.state == old(self)@.state,
    {
        if self.deck.len() == 0 {
            self.random_card()
        } else {
            self.deck.pop().unwrap()
        }
    }

    fn deal_dealer(&mut self, count: u8)
        requires
            old(self)@.dealer.len() + count <= usize::MAX,
        ensures
            grown(old(self)@.dealer, count as nat, final(self)@.dealer),
            draws(old(self)@.deck, added(old(self)@.dealer, final(self)@.dealer), final(self)@.deck),
            final(self)@.player == old(self)@.player,
            final(self)@.state == old(self)@.state,
    {
        let ghost t = self@;
        let mut i: u8 = 0;
        assert(added(t.dealer, self@.dealer) =~= Seq::<u8>::empty());
        assert(t.dealer.subrange(0, t.dealer.len() as int) =~= t.dealer);
        assert(t.deck.subrange(0, t.deck.len() as int) =~= t.deck);
        while i < count
            invariant
                i <= count,
                t.dealer.len() + count <= usize::MAX,
                grown(t.dealer, i as nat, self@.dealer),
                draws(t.deck, added(t.dealer, self@.dealer), self@.deck),
                self@.player == t.player,
                self@.state == t.state,
            decreases count - i,
        {
            let ghost before = self@;
            let card = self.draw();
            proof {
                lemma_draws_next(t.deck, added(t.dealer, before.dealer), before.deck, card, self@.deck);
                lemma_added_push(t.dealer, before.dealer, card);
            }
            self.cards_for_dealer.push(card);
            i = i + 1;
        }
    }

    fn deal_player(&mut self, count: u8)
        requires
            old(self)@.player.len() + count <= usize::MAX,
        ensures
            grown(old(self)@.player, count as nat, final(self)@.player),
            draws(old(self)@.deck, added(old(self)@.player, final(self)@.player), final(self)@.deck),
            final(self)@.dealer == old(self)@.dealer,
            final(self)@.state == old(self)@.state,
    {
        let ghost t = self@;
        let mut i: u8 = 0;
        assert(added(t.player, self@.player) =~= Seq::<u8>::empty());
        assert(t.player.subrange(0, t.player.len() as int) =~= t.player);
        assert(t.deck.subrange(0, t.deck.len() as int) =~= t.deck);
        while i < count
            invariant
                i <= count,
                t.player.len() + count <= usize::MAX,
                grown(t.player, i as nat, self@.player),
                draws(t.deck, added(t.player, self@.player), self@.deck),
                self@.dealer == t.dealer,
                self@.state == t.state,
            decreases count - i,
        {
            let ghost before = self@;
            let card = self.draw();
            proof {
                lemma_draws_next(t.deck, added(t.player, before.player), before.deck, card, self@.deck);
                lemma_added_push(t.player, before.player, card);
            }
            self.cards_for_player.push(card);
            i = i + 1;
        }
    }

    /// The hands and the phase, unchanged.
    pub fn current_state(&self) -> (r: (Vec<u8>, Vec<u8>, NaiveGameState))
        ensures
            r.0@ == self@.player,
            r.1@ == self@.dealer,
            r.2.phase() == self@.state,
    {
        (self.cards_for_player.clone(), self.cards_for_dealer.clone(), self.state)
    }

    fn game_over(&self, points_for_dealer: u8, points_for_player: u8) -> (r: NaiveGameState)
        ensures
            r.phase() == showdown_rule(points_for_dealer as nat, points_for_player as nat),
    {
        if points_for_dealer > points_for_player {
            NaiveGameState::DealerWins
        } else {
            if points_for_dealer < points_for_player {
                NaiveGameState::PlayerWins
            } else {
                NaiveGameState::Tie
            }
        }
    }

    /// Deals one card to the dealer and runs the dealer's check.
    pub fn hit_as_dealer(&mut self)
        requires
            table_wf(old(self)@),
            allowed(old(self)@, Action::HitAsDealer),
        ensures
            table_wf(final(self)@),
            step(old(self)@, Action::HitAsDealer, final(self)@),
    {
        let ghost t = self@;
        proof {
            lemma_hands_small(t, Action::HitAsDealer);
        }
        self.deal_dealer(1);
        self.check_dealer();
        proof {
            lemma_step_wf(t, Action::HitAsDealer, self@);
        }
    }

    /// Deals one card to the player and runs the player's check.
    pub fn hit_as_player(&mut self)
        requires
            table_wf(old(self)@),
            allowed(old(self)@, Action::HitAsPlayer),
        ensures
            table_wf(final(self)@),
            step(old(self)@, Action::HitAsPlayer, final(self)@),
    {
        let ghost t = self@;
        proof {
            lemma_hands_small(t, Action::HitAsPlayer);
        }
        self.deal_player(1);
        self.check_player();
        proof {
            lemma_step_wf(t, Action::HitAsPlayer, self@);
        }
    }

    /// A new game, with empty hands and no planted cards; random cards come
    /// from a generator seeded with `seed`.
    pub fn new(seed: u64) -> (r: Self)
        ensures
            r@ == fresh_table(),
    {
        let r = Self {
            cards_for_dealer: Vec::new(),
            cards_for_player: Vec::new(),
            deck: Vec::new(),
            rng: seeded_rng(seed),
            state: NaiveGameState::Uninitialized,
        };
        assert(r@.player =~= Seq::<u8>::empty());
        r
    }

    /// Adds cards to the planted deck; the last of them is dealt first.
    pub fn plant_deck(&mut self, deck: &[u8])
        requires
            all_cards(deck@),
            table_wf(old(self)@),
        ensures
            final(self)@ == (Table { deck: old(self)@.deck + deck@, ..old(self)@ }),
            final(self).generator() == old(self).generator(),
            table_wf(final(self)@),
    {
        let ghost t = self@;
        let mut i: usize = 0;
        while i < deck.len()
            invariant
                i <= deck@.len(),
                self@ == (Table { deck: t.deck + deck@.subrange(0, i as int), ..t }),
                self.rng == old(self).rng,
            decreases deck@.len() - i,
        {
            assert(t.deck + deck@.subrange(0, i + 1) =~= (t.deck + deck@.subrange(0, i as int)).push(deck@[i as int]));
            self.deck.push(deck[i]);
            i = i + 1;
        }
        assert(deck@.subrange(0, i as int) =~= deck@);
        assert(all_cards(self@.deck)) by {
            assert forall|j: int| 0 <= j < self@.deck.len() implies is_card(#[trigger] self@.deck[j]) by {
                if j >= t.deck.len() {
                    assert(self@.deck[j] == deck@[j - t.deck.len()]);
                }
            }
        }
    }

    /// A random card: the generator's next value, reduced to `2..=14` by
    /// `card_from_random`.
    fn random_card(&mut self) -> (card: u8)
        ensures
            is_card(card),
            final(self)@ == old(self)@,
    {
        card_from_random(next_random(&mut self.rng))
    }

    /// Runs the dealer's check without dealing.
    pub fn stand(&mut self)
        requires
            table_wf(old(self)@),
            allowed(old(self)@, Action::Stand),
        ensures
            table_wf(final(self)@),
            step(old(self)@, Action::Stand, final(self)@),
    {
        let ghost t = self@;
        proof {
            lemma_hands_small(t, Action::Stand);
        }
        self.check_dealer();
        proof {
            lemma_step_wf(t, Action::Stand, self@);
        }
    }
}

/// The card that a 32-bit random value stands for: the value mod 13, plus 2.
fn card_from_random(x: u32) -> (r: u8)
    ensures
        r == x % 13 + 2,
        is_card(r),
{
    (x % 13 + 2) as u8
}

/// Plays the scripted game on a planted deck of six sixes: start, a player
/// hit, a stand and a dealer hit. Both hands reach 18 and the game is a tie.
pub fn play_naive_game() -> (r: NaiveGameState)
    ensures
        r == NaiveGameState::Tie,
{
    let mut game = NaiveGame::new(0);

    let deck: Vec<u8> = vec![6, 6, 6, 6, 6, 6];

    game.plant_deck(deck.as_slice());
    let ghost t0 = game@;
    proof {
        assert(all_equal(t0.deck, 6));
    }
    game.create_game();
    let ghost t1 = game@;
    proof {
        lemma_step_all_equal(t0, Action::Start, t1, 6);
        lemma_score_all_equal(t1.player, 6);
        lemma_score_all_equal(t1.dealer, 6);
    }
    game.hit_as_player();
    let ghost t2 = game@;
    proof {
        lemma_step_all_equal(t1, Action::HitAsPlayer, t2, 6);
        lemma_score_all_equal(t2.player, 6);
    }
    game.stand();
    let ghost t3 = game@;
    proof {
        lemma_step_all_equal(t2, Action::Stand, t3, 6);
    }
    game.hit_as_dealer();
    proof {
        lemma_step_all_equal(t3, Action::HitAsDealer, game@, 6);
        lemma_score_all_equal(game@.dealer, 6);
    }
    game.state
}

} // verus!
