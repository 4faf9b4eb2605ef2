//! The abstract game: both hands, the shoe and the phase, and how each action
//! changes them. Every game engine of this crate refines this model, which is
//! what makes the plain and the encrypted engines agree.
use crate::game_state::GameState;
use crate::rules::{
    all_cards, dealer_turn_rule, is_card, lemma_dealer_draws_below_seventeen, lemma_score_bounds,
    player_turn_rule, post_deal_rule, rank, score, BLACKJACK, DEALER_STANDS_AT,
};
use vstd::prelude::*;

verus! {

/// The state of one game, as plain values.
pub struct Table {
    pub player: Seq<u8>,
    pub dealer: Seq<u8>,
    /// Planted cards, dealt from the end.
    pub deck: Seq<u8>,
    pub state: GameState,
}

/// The actions of a game.
pub enum Action {
    Start,
    HitAsPlayer,
    Stand,
    HitAsDealer,
}

/// How many cards an action deals.
pub open spec fn cards_needed(action: Action) -> nat {
    match action {
        Action::Start => 4,
        Action::HitAsPlayer => 1,
        Action::Stand => 0,
        Action::HitAsDealer => 1,
    }
}

/// The phase in which an action may be taken.
pub open spec fn allowed(t: Table, action: Action) -> bool {
    match action {
        Action::Start => t.state == GameState::Uninitialized,
        Action::HitAsPlayer | Action::Stand => t.state == GameState::WaitingForPlayer,
        Action::HitAsDealer => t.state == GameState::WaitingForDealer,
    }
}

/// `cards` were dealt, in this order, from `deck`, leaving `rest`: the planted
/// cards go first, from the end of the deck, and once it is empty every further
/// card is a fresh draw, some card.
pub open spec fn draws(deck: Seq<u8>, cards: Seq<u8>, rest: Seq<u8>) -> bool {
    let k = if cards.len() <= deck.len() { cards.len() } else { deck.len() };
    &&& rest == deck.subrange(0, deck.len() - k)
    &&& forall|i: int| 0 <= i < k ==> #[trigger] cards[i] == deck[deck.len() - 1 - i]
    &&& forall|i: int| k <= i < cards.len() ==> is_card(#[trigger] cards[i])
}

/// `after` is `before` with `count` more cards, which are `added`.
pub open spec fn grown(before: Seq<u8>, count: nat, after: Seq<u8>) -> bool {
    &&& after.len() == before.len() + count
    &&& after.subrange(0, before.len() as int) == before
}

pub open spec fn added(before: Seq<u8>, after: Seq<u8>) -> Seq<u8> {
    after.subrange(before.len() as int, after.len() as int)
}

/// What one action does: the cards it deals and the check it runs.
pub open spec fn step(t: Table, action: Action, u: Table) -> bool {
    match action {
        Action::Start => {
            &&& grown(t.player, 2, u.player)
            &&& grown(t.dealer, 2, u.dealer)
            &&& draws(t.deck, added(t.player, u.player) + added(t.dealer, u.dealer), u.deck)
            &&& u.state == post_deal_rule(score(u.player), score(u.dealer))
        },
        Action::HitAsPlayer => {
            &&& grown(t.player, 1, u.player)
            &&& u.dealer == t.dealer
            &&& draws(t.deck, added(t.player, u.player), u.deck)
            &&& u.state == player_turn_rule(score(u.player))
        },
        Action::Stand => {
            &&& u.player == t.player
            &&& u.dealer == t.dealer
            &&& u.deck == t.deck
            &&& u.state == dealer_turn_rule(score(u.player), score(u.dealer))
        },
        Action::HitAsDealer => {
            &&& u.player == t.player
            &&& grown(t.dealer, 1, u.dealer)
            &&& draws(t.deck, added(t.dealer, u.dealer), u.deck)
            &&& u.state == dealer_turn_rule(score(u.player), score(u.dealer))
        },
    }
}

/// The invariant of a game between two actions.
pub open spec fn table_wf(t: Table) -> bool {
    &&& all_cards(t.player)
    &&& all_cards(t.dealer)
    &&& all_cards(t.deck)
    &&& t.state != GameState::Checking
    &&& t.state == GameState::Uninitialized ==> t.player.len() == 0 && t.dealer.len() == 0
    &&& t.state == GameState::WaitingForPlayer ==> score(t.player) <= 21 && score(t.dealer) <= 21
    &&& t.state == GameState::WaitingForDealer ==> score(t.player) <= 21 && score(t.dealer) < 17
}

/// The table of a new game.
pub open spec fn fresh_table() -> Table {
    Table {
        player: Seq::empty(),
        dealer: Seq::empty(),
        deck: Seq::empty(),
        state: GameState::Uninitialized,
    }
}

/// While an action may be taken, no hand holds more than ten cards.
pub proof fn lemma_hands_small(t: Table, action: Action)
    requires
        table_wf(t),
        allowed(t, action),
    ensures
        t.player.len() <= 10,
        t.dealer.len() <= 10,
        score(t.player) <= 21,
        score(t.dealer) <= 21,
{
    lemma_score_bounds(t.player);
    lemma_score_bounds(t.dealer);
}

/// Cards dealt from a deck of cards are cards, and so is what is left of it.
pub proof fn lemma_draws_cards(deck: Seq<u8>, cards: Seq<u8>, rest: Seq<u8>)
    requires
        all_cards(deck),
        draws(deck, cards, rest),
    ensures
        all_cards(cards),
        all_cards(rest),
{
    let k = if cards.len() <= deck.len() { cards.len() } else { deck.len() };
    assert forall|i: int| 0 <= i < cards.len() implies is_card(#[trigger] cards[i]) by {
        if i < k {
            assert(is_card(deck[deck.len() - 1 - i]));
        }
    }
}

proof fn lemma_grown_cards(before: Seq<u8>, count: nat, after: Seq<u8>)
    requires
        all_cards(before),
        all_cards(added(before, after)),
        grown(before, count, after),
    ensures
        all_cards(after),
{
    assert forall|i: int| 0 <= i < after.len() implies is_card(#[trigger] after[i]) by {
        if i < before.len() {
            assert(after.subrange(0, before.len() as int)[i] == after[i]);
        } else {
            assert(added(before, after)[i - before.len()] == after[i]);
        }
    }
}

/// Each allowed action keeps the invariant.
pub proof fn lemma_step_wf(t: Table, action: Action, u: Table)
    requires
        table_wf(t),
        allowed(t, action),
        step(t, action, u),
    ensures
        table_wf(u),
{
    match action {
        Action::Start => {
            let cards = added(t.player, u.player) + added(t.dealer, u.dealer);
            lemma_draws_cards(t.deck, cards, u.deck);
            assert(cards.subrange(0, 2) =~= added(t.player, u.player));
            assert(cards.subrange(2, 4) =~= added(t.dealer, u.dealer));
            assert(all_cards(added(t.player, u.player))) by {
                assert forall|i: int| 0 <= i < 2 implies is_card(
                    #[trigger] added(t.player, u.player)[i],
                ) by {
                    assert(cards[i] == added(t.player, u.player)[i]);
                }
            }
            assert(all_cards(added(t.dealer, u.dealer))) by {
                assert forall|i: int| 0 <= i < 2 implies is_card(
                    #[trigger] added(t.dealer, u.dealer)[i],
                ) by {
                    assert(cards[i + 2] == added(t.dealer, u.dealer)[i]);
                }
            }
            lemma_grown_cards(t.player, 2, u.player);
            lemma_grown_cards(t.dealer, 2, u.dealer);
        },
        Action::HitAsPlayer => {
            lemma_draws_cards(t.deck, added(t.player, u.player), u.deck);
            lemma_grown_cards(t.player, 1, u.player);
        },
        Action::Stand => {},
        Action::HitAsDealer => {
            lemma_draws_cards(t.deck, added(t.dealer, u.dealer), u.deck);
            lemma_grown_cards(t.dealer, 1, u.dealer);
        },
    }
}

/// Dealing one more card keeps `draws`: it is the last planted card while
/// any is left, and else some card.
pub proof fn lemma_draws_next(deck: Seq<u8>, cards: Seq<u8>, rest: Seq<u8>, card: u8, rest2: Seq<u8>)
    requires
        draws(deck, cards, rest),
        rest.len() > 0 ==> card == rest.last() && rest2 == rest.drop_last(),
        rest.len() == 0 ==> is_card(card) && rest2 == rest,
    ensures
        draws(deck, cards.push(card), rest2),
{
    let k = if cards.len() <= deck.len() { cards.len() } else { deck.len() };
    let c2 = cards.push(card);
    if rest.len() > 0 {
        assert(k == cards.len());
        assert(rest2 =~= deck.subrange(0, deck.len() - (k + 1)));
        assert forall|i: int| 0 <= i < k + 1 implies #[trigger] c2[i] == deck[deck.len() - 1 - i] by {
            if i < k {
                assert(c2[i] == cards[i]);
            }
        }
    } else {
        assert(k == deck.len());
        assert forall|i: int| k <= i < c2.len() implies is_card(#[trigger] c2[i]) by {
            if i < cards.len() {
                assert(c2[i] == cards[i]);
            }
        }
        assert forall|i: int| 0 <= i < k implies #[trigger] c2[i] == deck[deck.len() - 1 - i] by {
            assert(c2[i] == cards[i]);
        }
    }
}

/// Dealing `a` and then `b` is dealing `a + b`.
pub proof fn lemma_draws_concat(
    deck: Seq<u8>,
    a: Seq<u8>,
    mid: Seq<u8>,
    b: Seq<u8>,
    rest: Seq<u8>,
)
    requires
        draws(deck, a, mid),
        draws(mid, b, rest),
    ensures
        draws(deck, a + b, rest),
{
    let ab = a + b;
    let k1 = if a.len() <= deck.len() { a.len() } else { deck.len() };
    let k2 = if b.len() <= mid.len() { b.len() } else { mid.len() };
    let k = if ab.len() <= deck.len() { ab.len() } else { deck.len() };
    assert(k == k1 + k2);
    assert(rest =~= deck.subrange(0, deck.len() - k));
    assert forall|i: int| 0 <= i < k implies #[trigger] ab[i] == deck[deck.len() - 1 - i] by {
        if i < a.len() {
            assert(ab[i] == a[i]);
        } else {
            assert(ab[i] == b[i - a.len()]);
            assert(mid[mid.len() - 1 - (i - a.len())] == deck[deck.len() - 1 - i]);
        }
    }
    assert forall|i: int| k <= i < ab.len() implies is_card(#[trigger] ab[i]) by {
        if i < a.len() {
            assert(ab[i] == a[i]);
        } else {
            assert(ab[i] == b[i - a.len()]);
        }
    }
}

/// What a hand gains when one more card is pushed.
pub proof fn lemma_added_push(before: Seq<u8>, after: Seq<u8>, card: u8)
    requires
        after.len() >= before.len(),
    ensures
        added(before, after.push(card)) == added(before, after).push(card),
        after.subrange(0, before.len() as int) == after.push(card).subrange(0, before.len() as int),
{
    assert(added(before, after.push(card)) =~= added(before, after).push(card));
    assert(after.subrange(0, before.len() as int) =~= after.push(card).subrange(0, before.len() as int));
}

/// Only a game in progress takes actions: once a phase is final, none is
/// allowed.
pub proof fn lemma_final_allows_nothing(t: Table, action: Action)
    requires
        t.state.is_final(),
    ensures
        !allowed(t, action),
{
}

/// The dealer draws only below 17: whenever drawing is allowed, its total is
/// below 17, and after each of its checks it has to draw again exactly when
/// its total is still below 17.
pub proof fn lemma_dealer_stand_rule(t: Table, action: Action, u: Table)
    requires
        table_wf(t),
        allowed(t, action),
        step(t, action, u),
    ensures
        action == Action::HitAsDealer ==> score(t.dealer) < DEALER_STANDS_AT,
        action == Action::Stand || action == Action::HitAsDealer ==> ((u.state
            == GameState::WaitingForDealer) <==> score(u.dealer) < DEALER_STANDS_AT),
{
    lemma_dealer_draws_below_seventeen(score(u.player), score(u.dealer));
}

/// A hand whose total goes over 21 busts at the check of that very action,
/// and the game is then over. The one exception: after the deal, a player
/// with exactly 21 wins before the dealer's hand is looked at.
pub proof fn lemma_bust_ends_game(t: Table, action: Action, u: Table)
    requires
        table_wf(t),
        allowed(t, action),
        step(t, action, u),
    ensures
        score(u.player) > BLACKJACK ==> u.state == GameState::PlayerBusts,
        score(u.dealer) > BLACKJACK && (action != Action::Start || score(u.player) < BLACKJACK)
            ==> u.state == GameState::DealerBusts,
        score(u.player) > BLACKJACK || score(u.dealer) > BLACKJACK ==> u.state.is_final(),
{
    lemma_hands_small(t, action);
}

/// With enough planted cards, what an action deals is fixed: the last planted
/// cards, in order from the end, and the rest of the deck is the front of it.
pub proof fn lemma_draws_deterministic(deck: Seq<u8>, a: Seq<u8>, rest_a: Seq<u8>, b: Seq<u8>, rest_b: Seq<u8>)
    requires
        draws(deck, a, rest_a),
        draws(deck, b, rest_b),
        a.len() == b.len(),
        a.len() <= deck.len(),
    ensures
        a == b,
        rest_a == rest_b,
        rest_a.len() == deck.len() - a.len(),
{
    assert forall|i: int| 0 <= i < a.len() implies #[trigger] a[i] == b[i] by {
        assert(a[i] == deck[deck.len() - 1 - i]);
        assert(b[i] == deck[deck.len() - 1 - i]);
    }
    assert(a =~= b);
}

proof fn lemma_grown_eq(before: Seq<u8>, count: nat, a: Seq<u8>, b: Seq<u8>)
    requires
        grown(before, count, a),
        grown(before, count, b),
        added(before, a) == added(before, b),
    ensures
        a == b,
{
    assert forall|i: int| 0 <= i < a.len() implies a[i] == b[i] by {
        let n = before.len() as int;
        if i < n {
            assert(a.subrange(0, n)[i] == a[i]);
            assert(b.subrange(0, n)[i] == b[i]);
        } else {
            assert(added(before, a)[i - n] == a[i]);
            assert(added(before, b)[i - n] == b[i]);
        }
    }
    assert(a =~= b);
}

/// Equivalence of engines, one step: two engines that refine `step` (the plain
/// and the encrypted ones do) end an action in the same table when they start
/// it in the same table and the planted deck covers what the action deals.
pub proof fn lemma_step_deterministic(t: Table, action: Action, u1: Table, u2: Table)
    requires
        step(t, action, u1),
        step(t, action, u2),
        t.deck.len() >= cards_needed(action),
    ensures
        u1 == u2,
        u1.deck.len() == t.deck.len() - cards_needed(action),
{
    match action {
        Action::Start => {
            let c1 = added(t.player, u1.player) + added(t.dealer, u1.dealer);
            let c2 = added(t.player, u2.player) + added(t.dealer, u2.dealer);
            lemma_draws_deterministic(t.deck, c1, u1.deck, c2, u2.deck);
            assert(added(t.player, u1.player) =~= c1.subrange(0, 2));
            assert(added(t.player, u2.player) =~= c2.subrange(0, 2));
            assert(added(t.dealer, u1.dealer) =~= c1.subrange(2, 4));
            assert(added(t.dealer, u2.dealer) =~= c2.subrange(2, 4));
            lemma_grown_eq(t.player, 2, u1.player, u2.player);
            lemma_grown_eq(t.dealer, 2, u1.dealer, u2.dealer);
        },
        Action::HitAsPlayer => {
            lemma_draws_deterministic(
                t.deck,
                added(t.player, u1.player),
                u1.deck,
                added(t.player, u2.player),
                u2.deck,
            );
            lemma_grown_eq(t.player, 1, u1.player, u2.player);
        },
        Action::Stand => {},
        Action::HitAsDealer => {
            lemma_draws_deterministic(
                t.deck,
                added(t.dealer, u1.dealer),
                u1.deck,
                added(t.dealer, u2.dealer),
                u2.deck,
            );
            lemma_grown_eq(t.dealer, 1, u1.dealer, u2.dealer);
        },
    }
}

/// The deal from a deck of exactly four planted cards, popped from the end:
/// the player gets the fourth and the third, the dealer the second and the
/// first, and the phase follows from these hands alone. Every engine that
/// refines `step` ends the deal with these hands and this phase.
pub proof fn lemma_four_card_deal(deck: Seq<u8>, u: Table)
    requires
        deck.len() == 4,
        step(Table { deck: deck, ..fresh_table() }, Action::Start, u),
    ensures
        u.player == seq![deck[3], deck[2]],
        u.dealer == seq![deck[1], deck[0]],
        u.deck.len() == 0,
        u.state == post_deal_rule(score(seq![deck[3], deck[2]]), score(seq![deck[1], deck[0]])),
{
    let t = Table { deck: deck, ..fresh_table() };
    let cards = added(t.player, u.player) + added(t.dealer, u.dealer);
    assert(cards[0] == deck[3] && cards[1] == deck[2] && cards[2] == deck[1] && cards[3] == deck[0]);
    assert(u.player =~= added(t.player, u.player));
    assert(u.dealer =~= added(t.dealer, u.dealer));
    assert(u.player[0] == cards[0] && u.player[1] == cards[1]);
    assert(u.dealer[0] == cards[2] && u.dealer[1] == cards[3]);
    assert(u.player =~= seq![deck[3], deck[2]]);
    assert(u.dealer =~= seq![deck[1], deck[0]]);
}

pub open spec fn all_equal(cards: Seq<u8>, value: u8) -> bool {
    forall|i: int| 0 <= i < cards.len() ==> #[trigger] cards[i] == value
}

/// A hand of equal cards scores their rank times their number.
pub proof fn lemma_score_all_equal(cards: Seq<u8>, value: u8)
    requires
        all_equal(cards, value),
    ensures
        score(cards) == rank(value) * cards.len(),
    decreases cards.len(),
{
    if cards.len() > 0 {
        assert(all_equal(cards.drop_last(), value));
        lemma_score_all_equal(cards.drop_last(), value);
        assert(cards.last() == value);
        assert(rank(value) * cards.len() == rank(value) * (cards.len() - 1) + rank(value)) by (nonlinear_arith);
    }
}

/// Dealing from a deck of equal cards that covers the action hands out that
/// same card.
pub proof fn lemma_step_all_equal(t: Table, action: Action, u: Table, value: u8)
    requires
        step(t, action, u),
        all_equal(t.player, value),
        all_equal(t.dealer, value),
        all_equal(t.deck, value),
        t.deck.len() >= cards_needed(action),
    ensures
        all_equal(u.player, value),
        all_equal(u.dealer, value),
        all_equal(u.deck, value),
        u.deck.len() == t.deck.len() - cards_needed(action),
        u.player.len() == t.player.len() + (if action == Action::Start { 2nat } else if action
            == Action::HitAsPlayer { 1nat } else { 0nat }),
        u.dealer.len() == t.dealer.len() + (if action == Action::Start { 2nat } else if action
            == Action::HitAsDealer { 1nat } else { 0nat }),
{
    lemma_step_deterministic(t, action, u, u);
    match action {
        Action::Start => {
            let cards = added(t.player, u.player) + added(t.dealer, u.dealer);
            assert forall|i: int| 0 <= i < u.player.len() implies #[trigger] u.player[i] == value by {
                if i < t.player.len() {
                    assert(u.player.subrange(0, t.player.len() as int)[i] == u.player[i]);
                } else {
                    assert(cards[i - t.player.len()] == u.player[i]);
                }
            }
            assert forall|i: int| 0 <= i < u.dealer.len() implies #[trigger] u.dealer[i] == value by {
                if i < t.dealer.len() {
                    assert(u.dealer.subrange(0, t.dealer.len() as int)[i] == u.dealer[i]);
                } else {
                    assert(cards[2 + i - t.dealer.len()] == u.dealer[i]);
                }
            }
        },
        Action::HitAsPlayer => {
            let cards = added(t.player, u.player);
            assert forall|i: int| 0 <= i < u.player.len() implies #[trigger] u.player[i] == value by {
                if i < t.player.len() {
                    assert(u.player.subrange(0, t.player.len() as int)[i] == u.player[i]);
                } else {
                    assert(cards[i - t.player.len()] == u.player[i]);
                }
            }
        },
        Action::Stand => {},
        Action::HitAsDealer => {
            let cards = added(t.dealer, u.dealer);
            assert forall|i: int| 0 <= i < u.dealer.len() implies #[trigger] u.dealer[i] == value by {
                if i < t.dealer.len() {
                    assert(u.dealer.subrange(0, t.dealer.len() as int)[i] == u.dealer[i]);
                } else {
                    assert(cards[i - t.dealer.len()] == u.dealer[i]);
                }
            }
        },
    }
}

/// The cards that a script of actions deals.
pub open spec fn script_needs(actions: Seq<Action>) -> nat
    decreases actions.len(),
{
    if actions.len() == 0 {
        0
    } else {
        cards_needed(actions[0]) + script_needs(actions.drop_first())
    }
}

/// `tables` is a run of the script `actions`: each table follows from the one
/// before by the action between them.
pub open spec fn run_of(tables: Seq<Table>, actions: Seq<Action>) -> bool {
    &&& tables.len() == actions.len() + 1
    &&& forall|i: int| 0 <= i < actions.len() ==> #[trigger] step(tables[i], actions[i], tables[i + 1])
}

proof fn lemma_runs_agree_from(
    tables1: Seq<Table>,
    tables2: Seq<Table>,
    actions: Seq<Action>,
    i: int,
)
    requires
        run_of(tables1, actions),
        run_of(tables2, actions),
        0 <= i <= actions.len(),
        forall|j: int| 0 <= j <= i ==> tables1[j] == tables2[j],
        tables1[i].deck.len() >= script_needs(actions.subrange(i, actions.len() as int)),
    ensures
        forall|j: int| 0 <= j < tables1.len() ==> tables1[j] == tables2[j],
    decreases actions.len() - i,
{
    let n = actions.len() as int;
    if i < n {
        let rest = actions.subrange(i, n);
        assert(rest[0] == actions[i]);
        assert(rest.drop_first() =~= actions.subrange(i + 1, n));
        assert(step(tables1[i], actions[i], tables1[i + 1]));
        assert(step(tables2[i], actions[i], tables2[i + 1]));
        lemma_step_deterministic(tables1[i], actions[i], tables1[i + 1], tables2[i + 1]);
        assert forall|j: int| 0 <= j <= i + 1 implies tables1[j] == tables2[j] by {
            if j <= i {
                assert(tables1[j] == tables2[j]);
            }
        }
        lemma_runs_agree_from(tables1, tables2, actions, i + 1);
    }
}

/// Equivalence of engines: two engines that refine `step` and run the same
/// script from the same table, with a planted deck that covers every card the
/// script deals, pass through the same tables, hence the same phase, at every
/// step.
pub proof fn lemma_runs_agree(tables1: Seq<Table>, tables2: Seq<Table>, actions: Seq<Action>)
    requires
        run_of(tables1, actions),
        run_of(tables2, actions),
        tables1[0] == tables2[0],
        tables1[0].deck.len() >= script_needs(actions),
    ensures
        tables1 == tables2,
{
    assert(actions.subrange(0, actions.len() as int) =~= actions);
    lemma_runs_agree_from(tables1, tables2, actions, 0);
    assert(tables1 =~= tables2);
}

} // verus!
