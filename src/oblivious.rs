//! The rules as data-oblivious expressions over encrypted scalars: every
//! condition is evaluated and every outcome is built, and oblivious selects
//! pick the result, so nothing that runs depends on a card. Dealing from the
//! shoe, with its oblivious random draws, is here too.
use crate::game_state::{code_of, GameState};
use crate::rules::{
    dealer_turn_rule, is_card, lemma_rank_bounds, lemma_score_bounds, lemma_score_push,
    player_turn_rule, post_deal_rule, rank, score, showdown_rule, BLACKJACK, DEALER_STANDS_AT,
};
use crate::scalars::{encrypt_points, encrypt_state, plains, DrawCounter, EncryptedScalars};
use crate::table::{added, draws, grown, lemma_added_push, lemma_draws_next};
use vstd::prelude::*;

verus! {

/// Points of one encrypted card:
/// `select(card < 11, card, select(card < 14, 10, 11))`.
pub fn rate_card<E: EncryptedScalars>(scalars: &E, card: &E::Cipher) -> (r: E::Cipher)
    ensures
        scalars.plain(&r) as nat == rank(scalars.plain(card)),
{
    let below_jack = scalars.lt_clear(card, 11);
    let below_ace = scalars.lt_clear(card, 14);
    let face = scalars.select(&below_ace, &encrypt_points(scalars, 10), &encrypt_points(scalars, 11));
    scalars.select(&below_jack, card, &face)
}

/// Encrypted total of a hand, summed from an encrypted zero.
pub fn rate_cards<E: EncryptedScalars>(scalars: &E, cards: &[E::Cipher]) -> (r: E::Cipher)
    requires
        cards@.len() <= 23,
    ensures
        scalars.plain(&r) as nat == score(plains(scalars, cards@)),
{
    let mut total = encrypt_points(scalars, 0);
    let mut i: usize = 0;
    while i < cards.len()
        invariant
            i <= cards@.len() <= 23,
            scalars.plain(&total) as nat == score(plains(scalars, cards@.subrange(0, i as int))),
        decreases cards@.len() - i,
    {
        let ghost prefix = plains(scalars, cards@.subrange(0, i as int));
        let ghost card = scalars.plain(&cards@[i as int]);
        proof {
            lemma_score_bounds(prefix);
            lemma_score_push(prefix, card);
            lemma_rank_bounds(card);
            assert(plains(scalars, cards@.subrange(0, i + 1)) =~= prefix.push(card));
        }
        total = scalars.add(total, rate_card(scalars, &cards[i]));
        i = i + 1;
    }
    assert(cards@.subrange(0, i as int) =~= cards@);
    total
}

/// Encrypted outcome code of the check after the deal.
pub fn post_deal_outcome<E: EncryptedScalars>(
    scalars: &E,
    points_for_player: &E::Cipher,
    points_for_dealer: &E::Cipher,
) -> (r: E::Cipher)
    ensures
        scalars.plain(&r) == code_of(
            post_deal_rule(
                scalars.plain(points_for_player) as nat,
                scalars.plain(points_for_dealer) as nat,
            ),
        ),
{
    let dealer_over = scalars.select(
        &scalars.gt_clear(points_for_dealer, BLACKJACK),
        &encrypt_state(scalars, GameState::DealerBusts),
        &encrypt_state(scalars, GameState::WaitingForPlayer),
    );
    let dealer_side = scalars.select(
        &scalars.eq_clear(points_for_dealer, BLACKJACK),
        &encrypt_state(scalars, GameState::DealerWins),
        &dealer_over,
    );
    let player_over = scalars.select(
        &scalars.gt_clear(points_for_player, BLACKJACK),
        &encrypt_state(scalars, GameState::PlayerBusts),
        &dealer_side,
    );
    scalars.select(
        &scalars.eq_clear(points_for_player, BLACKJACK),
        &encrypt_state(scalars, GameState::PlayerWins),
        &player_over,
    )
}

/// Encrypted outcome code of the check after the player drew.
pub fn player_turn_outcome<E: EncryptedScalars>(scalars: &E, points_for_player: &E::Cipher) -> (r:
    E::Cipher)
    ensures
        scalars.plain(&r) == code_of(player_turn_rule(scalars.plain(points_for_player) as nat)),
{
    scalars.select(
        &scalars.gt_clear(points_for_player, BLACKJACK),
        &encrypt_state(scalars, GameState::PlayerBusts),
        &encrypt_state(scalars, GameState::WaitingForPlayer),
    )
}

/// Encrypted outcome code of comparing two standing totals.
pub fn game_over<E: EncryptedScalars>(
    scalars: &E,
    points_for_dealer: &E::Cipher,
    points_for_player: &E::Cipher,
) -> (r: E::Cipher)
    ensures
        scalars.plain(&r) == code_of(
            showdown_rule(
                scalars.plain(points_for_dealer) as nat,
                scalars.plain(points_for_player) as nat,
            ),
        ),
{
    let not_higher = scalars.select(
        &scalars.lt(points_for_dealer, points_for_player),
        &encrypt_state(scalars, GameState::PlayerWins),
        &encrypt_state(scalars, GameState::Tie),
    );
    scalars.select(
        &scalars.gt(points_for_dealer, points_for_player),
        &encrypt_state(scalars, GameState::DealerWins),
        &not_higher,
    )
}

/// Encrypted outcome code of the check after the player stood or the dealer
/// drew.
pub fn dealer_turn_outcome<E: EncryptedScalars>(
    scalars: &E,
    points_for_player: &E::Cipher,
    points_for_dealer: &E::Cipher,
) -> (r: E::Cipher)
    ensures
        scalars.plain(&r) == code_of(
            dealer_turn_rule(
                scalars.plain(points_for_player) as nat,
                scalars.plain(points_for_dealer) as nat,
            ),
        ),
{
    let standing = scalars.select(
        &scalars.gt_clear(points_for_dealer, BLACKJACK),
        &encrypt_state(scalars, GameState::DealerBusts),
        &game_over(scalars, points_for_dealer, points_for_player),
    );
    scalars.select(
        &scalars.lt_clear(points_for_dealer, DEALER_STANDS_AT),
        &encrypt_state(scalars, GameState::WaitingForDealer),
        &standing,
    )
}

/// The card that an encrypted draw stands for, `(drawn mod 13) + 2`, computed
/// on the ciphertext: the draw itself is never decrypted.
pub fn card_from_draw<E: EncryptedScalars>(scalars: &E, drawn: E::Cipher) -> (r: E::Cipher)
    ensures
        scalars.plain(&r) == scalars.plain(&drawn) % 13 + 2,
        is_card(scalars.plain(&r)),
{
    let reduced = scalars.rem_clear(drawn, 13);
    scalars.add(reduced, encrypt_points(scalars, 2))
}

/// An encrypted random card: `card_from_draw` of an oblivious random draw,
/// with a seed taken from the counter. Whatever the draw, the result is a
/// card.
pub fn random_card<E: EncryptedScalars>(scalars: &E, counter: &DrawCounter) -> (r: E::Cipher)
    ensures
        is_card(scalars.plain(&r)),
{
    let seed = counter.next_seed();
    card_from_draw(scalars, scalars.oblivious_random(seed))
}

/// Deals `count` cards to `hand`: the last planted card while any is left,
/// else an oblivious random card.
pub fn deal<E: EncryptedScalars>(
    scalars: &E,
    counter: &DrawCounter,
    hand: &mut Vec<E::Cipher>,
    deck: &mut Vec<E::Cipher>,
    count: u8,
)
    requires
        old(hand)@.len() + count <= usize::MAX,
    ensures
        grown(plains(scalars, old(hand)@), count as nat, plains(scalars, final(hand)@)),
        draws(
            plains(scalars, old(deck)@),
            added(plains(scalars, old(hand)@), plains(scalars, final(hand)@)),
            plains(scalars, final(deck)@),
        ),
{
    let ghost hand0 = plains(scalars, hand@);
    let ghost deck0 = plains(scalars, deck@);
    let mut i: u8 = 0;
    assert(added(hand0, plains(scalars, hand@)) =~= Seq::<u8>::empty());
    assert(hand0.subrange(0, hand0.len() as int) =~= hand0);
    assert(deck0.subrange(0, deck0.len() as int) =~= deck0);
    while i < count
        invariant
            i <= count,
            hand0.len() + count <= usize::MAX,
            hand0 == plains(scalars, old(hand)@),
            deck0 == plains(scalars, old(deck)@),
            grown(hand0, i as nat, plains(scalars, hand@)),
            draws(deck0, added(hand0, plains(scalars, hand@)), plains(scalars, deck@)),
        decreases count - i,
    {
        let ghost hand1 = plains(scalars, hand@);
        let ghost deck1 = plains(scalars, deck@);
        let card = if deck.len() == 0 {
            random_card(scalars, counter)
        } else {
            deck.pop().unwrap()
        };
        proof {
            assert(deck1.len() > 0 ==> plains(scalars, deck@) =~= deck1.drop_last());
            lemma_draws_next(
                deck0,
                added(hand0, hand1),
                deck1,
                scalars.plain(&card),
                plains(scalars, deck@),
            );
            lemma_added_push(hand0, hand1, scalars.plain(&card));
        }
        hand.push(card);
        assert(plains(scalars, hand@) =~= hand1.push(scalars.plain(&card)));
        i = i + 1;
    }
}

} // verus!
