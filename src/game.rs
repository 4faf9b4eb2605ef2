//! The encrypted engine with its phase as the shared `GameState`. As in
//! `SecureGame`, every card, total and outcome is a ciphertext until the
//! outcome code is revealed.
use crate::game_state::{state_of_code, GameState};
use crate::oblivious::{
    deal, dealer_turn_outcome, player_turn_outcome, post_deal_outcome, rate_cards,
};
use crate::rules::{all_cards, dealer_turn_rule, is_card, player_turn_rule, post_deal_rule, score};
use crate::scalars::{decrypt_cards, encrypt_points, plains, DrawCounter, EncryptedScalars};
use crate::table::{
    added, allowed, fresh_table, lemma_draws_concat, lemma_hands_small, lemma_step_wf, step,
    table_wf, Action, Table,
};
use vstd::prelude::*;

verus! {

/// One game on encrypted cards, with its phase as a `GameState`. Cards that
/// the planted deck cannot supply are drawn obliviously, seeded from a shared
/// counter.
pub struct Game<'info, E: EncryptedScalars> {
    cards_for_dealer: Vec<E::Cipher>,
    cards_for_player: Vec<E::Cipher>,
    deck: Vec<E::Cipher>,
    scalars: &'info E,
    counter: &'info DrawCounter,
    state: GameState,
}

impl<'info, E: EncryptedScalars> View for Game<'info, E> {
    type V = Table;

    /// The game as its key holder sees it.
    closed spec fn view(&self) -> Table {
        Table {
            player: plains(self.scalars, self.cards_for_player@),
            dealer: plains(self.scalars, self.cards_for_dealer@),
            deck: plains(self.scalars, self.deck@),
            state: self.state,
        }
    }
}

impl<'info, E: EncryptedScalars> Game<'info, E> {
    fn check_dealer(&mut self)
        requires
            old(self)@.player.len() <= 23,
            old(self)@.dealer.len() <= 23,
        ensures
            final(self)@ == (Table {
                state: dealer_turn_rule(score(old(self)@.player), score(old(self)@.dealer)),
                ..old(self)@
            }),
    {
        self.state = GameState::Checking;

        let points_for_player = rate_cards(self.scalars, self.cards_for_player.as_slice());
        let points_for_dealer = rate_cards(self.scalars, self.cards_for_dealer.as_slice());

        let state = dealer_turn_outcome(self.scalars, &points_for_player, &points_for_dealer);

        self.decrypt_state(state);
    }

    fn check_dealer_and_player(&mut self)
        requires
            old(self)@.player.len() <= 23,
            old(self)@.dealer.len() <= 23,
        ensures
            final(self)@ == (Table {
                state: post_deal_rule(score(old(self)@.player), score(old(self)@.dealer)),
                ..old(self)@
            }),
    {
        self.state = GameState::Checking;

        let points_for_player = rate_cards(self.scalars, self.cards_for_player.as_slice());
        let points_for_dealer = rate_cards(self.scalars, self.cards_for_dealer.as_slice());

        let state = post_deal_outcome(self.scalars, &points_for_player, &points_for_dealer);

        self.decrypt_state(state);
    }

    fn check_player(&mut self)
        requires
            old(self)@.player.len() <= 23,
        ensures
            final(self)@ == (Table { state: player_turn_rule(score(old(self)@.player)), ..old(self)@ }),
    {
        self.state = GameState::Checking;

        let points_for_player = rate_cards(self.scalars, self.cards_for_player.as_slice());

        let state = player_turn_outcome(self.scalars, &points_for_player);

        self.decrypt_state(state);
    }

    /// Deals two cards to the player, then two to the dealer, and runs the
    /// check after the deal.
    pub fn create_game(&mut self)
        requires
            table_wf(old(self)@),
            allowed(old(self)@, Action::Start),
        ensures
            table_wf(final(self)@),
            step(old(self)@, Action::Start, final(self)@),
    {
        let ghost t = self@;
        deal(self.scalars, self.counter, &mut self.cards_for_player, &mut self.deck, 2);
        let ghost mid = self@;
        deal(self.scalars, self.counter, &mut self.cards_for_dealer, &mut self.deck, 2);
        proof {
            lemma_draws_concat(
                t.deck,
                added(t.player, mid.player),
                mid.deck,
                added(t.dealer, self@.dealer),
                self@.deck,
            );
        }
        self.check_dealer_and_player();
        proof {
            lemma_step_wf(t, Action::Start, self@);
        }
    }

    /// Decrypts an outcome code and makes it the phase. The code is one of the
    /// phases by construction of the evaluators.
    fn decrypt_state(&mut self, state: E::Cipher)
        requires
            state_of_code(old(self).scalars.plain(&state)) is Some,
        ensures
            final(self)@ == (Table {
                state: state_of_code(old(self).scalars.plain(&state))->Some_0,
                ..old(self)@
            }),
    {
        let state_value: u8 = self.scalars.decrypt(&state);

        self.state = GameState::try_from(state_value).unwrap();
    }

    /// The clear hands and the phase, unchanged.
    pub fn current_state(&self) -> (r: (Vec<u8>, Vec<u8>, GameState))
        ensures
            r.0@ == self@.player,
            r.1@ == self@.dealer,
            r.2 == self@.state,
    {
        (
            decrypt_cards(self.scalars, self.cards_for_player.as_slice()),
            decrypt_cards(self.scalars, self.cards_for_dealer.as_slice()),
            self.state,
        )
    }

    /// Deals one card to the dealer and runs the dealer's check.
    pub fn hit_as_dealer(&mut self)
        requires
            table_wf(old(self)@),
            allowed(old(self)@, Action::HitAsDealer),
        ensures
            table_wf(final(self)@),
            step(old(self)@, Action::HitAsDealer, final(self)@),
    {
        let ghost t = self@;
        proof {
            lemma_hands_small(t, Action::HitAsDealer);
        }
        deal(self.scalars, self.counter, &mut self.cards_for_dealer, &mut self.deck, 1);
        self.check_dealer();
        proof {
            lemma_step_wf(t, Action::HitAsDealer, self@);
        }
    }

    /// Deals one card to the player and runs the player's check.
    pub fn hit_as_player(&mut self)
        requires
            table_wf(old(self)@),
            allowed(old(self)@, Action::HitAsPlayer),
        ensures
            table_wf(final(self)@),
            step(old(self)@, Action::HitAsPlayer, final(self)@),
    {
        let ghost t = self@;
        proof {
            lemma_hands_small(t, Action::HitAsPlayer);
        }
        deal(self.scalars, self.counter, &mut self.cards_for_player, &mut self.deck, 1);
        self.check_player();
        proof {
            lemma_step_wf(t, Action::HitAsPlayer, self@);
        }
    }

    /// A new game under the key of `scalars`, with empty hands and no planted
    /// cards; random draws take their seeds from `counter`.
    pub fn new(scalars: &'info E, counter: &'info DrawCounter) -> (r: Self)
        ensures
            r@ == fresh_table(),
    {
        let r = Self {
            cards_for_dealer: Vec::new(),
            cards_for_player: Vec::new(),
            deck: Vec::new(),
            scalars: scalars,
            counter: counter,
            state: GameState::Uninitialized,
        };
        assert(r@.player =~= Seq::<u8>::empty());
        assert(r@.dealer =~= Seq::<u8>::empty());
        assert(r@.deck =~= Seq::<u8>::empty());
        r
    }

    /// Encrypts cards and adds them to the planted deck; the last of them is
    /// dealt first.
    pub fn plant_deck(&mut self, deck: &[u8])
        requires
            all_cards(deck@),
            table_wf(old(self)@),
        ensures
            final(self)@ == (Table { deck: old(self)@.deck + deck@, ..old(self)@ }),
            table_wf(final(self)@),
    {
        let ghost t = self@;
        let mut i: usize = 0;
        while i < deck.len()
            invariant
                i <= deck@.len(),
                self.scalars == old(self).scalars,
                self@ == (Table { deck: t.deck + deck@.subrange(0, i as int), ..t }),
            decreases deck@.len() - i,
        {
            let card = encrypt_points(self.scalars, deck[i]);
            let ghost before = self.deck@;
            self.deck.push(card);
            assert(plains(self.scalars, self.deck@) =~= plains(self.scalars, before).push(deck@[i as int]));
            assert(t.deck + deck@.subrange(0, i + 1) =~= (t.deck + deck@.subrange(0, i as int)).push(deck@[i as int]));
            i = i + 1;
        }
        assert(deck@.subrange(0, i as int) =~= deck@);
        assert(all_cards(self@.deck)) by {
            assert forall|j: int| 0 <= j < self@.deck.len() implies is_card(#[trigger] self@.deck[j]) by {
                if j >= t.deck.len() {
                    assert(self@.deck[j] == deck@[j - t.deck.len()]);
                }
            }
        }
    }

    /// Runs the dealer's check without dealing.
    pub fn stand(&mut self)
        requires
            table_wf(old(self)@),
            allowed(old(self)@, Action::Stand),
        ensures
            table_wf(final(self)@),
            step(old(self)@, Action::Stand, final(self)@),
    {
        let ghost t = self@;
        proof {
            lemma_hands_small(t, Action::Stand);
        }
        self.check_dealer();
        proof {
            lemma_step_wf(t, Action::Stand, self@);
        }
    }
}

} // verus!
