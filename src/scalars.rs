//! The encrypted-scalar capability that the encrypted engines are written
//! against, a clear-value implementation of it, and the draw counter that
//! seeds oblivious random draws.
use crate::game_state::{code_of, GameState};
use crate::random::{next_random, seeded_rng};
use std::sync::atomic::{AtomicU64, Ordering};
use vstd::prelude::*;

verus! {

/// An encryption scheme for bytes with homomorphic comparison, selection and
/// arithmetic, under one key. Every operation but `decrypt` works on
/// ciphertexts only, and none branches on what they hold.
pub trait EncryptedScalars {
    /// An encrypted byte.
    type Cipher;

    /// An encrypted boolean.
    type Bit;

    /// The clear value that a ciphertext holds under this key.
    spec fn plain(&self, c: &Self::Cipher) -> u8;

    /// The clear value that an encrypted boolean holds under this key.
    spec fn truth(&self, b: &Self::Bit) -> bool;

    fn encrypt(&self, value: u8) -> (r: Self::Cipher)
        ensures
            self.plain(&r) == value,
    ;

    fn decrypt(&self, c: &Self::Cipher) -> (r: u8)
        ensures
            r == self.plain(c),
    ;

    fn eq_clear(&self, c: &Self::Cipher, value: u8) -> (r: Self::Bit)
        ensures
            self.truth(&r) == (self.plain(c) == value),
    ;

    fn lt_clear(&self, c: &Self::Cipher, value: u8) -> (r: Self::Bit)
        ensures
            self.truth(&r) == (self.plain(c) < value),
    ;

    fn gt_clear(&self, c: &Self::Cipher, value: u8) -> (r: Self::Bit)
        ensures
            self.truth(&r) == (self.plain(c) > value),
    ;

    fn lt(&self, a: &Self::Cipher, b: &Self::Cipher) -> (r: Self::Bit)
        ensures
            self.truth(&r) == (self.plain(a) < self.plain(b)),
    ;

    fn gt(&self, a: &Self::Cipher, b: &Self::Cipher) -> (r: Self::Bit)
        ensures
            self.truth(&r) == (self.plain(a) > self.plain(b)),
    ;

    /// Oblivious multiplexer: `when_true` where `condition` holds, else
    /// `when_false`.
    fn select(&self, condition: &Self::Bit, when_true: &Self::Cipher, when_false: &Self::Cipher) -> (r:
        Self::Cipher)
        ensures
            self.plain(&r) == if self.truth(condition) {
                self.plain(when_true)
            } else {
                self.plain(when_false)
            },
    ;

    /// Addition, wrapping at 256.
    fn add(&self, a: Self::Cipher, b: Self::Cipher) -> (r: Self::Cipher)
        ensures
            self.plain(&r) == (self.plain(&a) + self.plain(&b)) % 256,
    ;

    /// Remainder by a clear divisor.
    fn rem_clear(&self, a: Self::Cipher, divisor: u8) -> (r: Self::Cipher)
        requires
            divisor > 0,
        ensures
            self.plain(&r) == self.plain(&a) % divisor,
    ;

    /// A ciphertext of a pseudo-random byte derived from `seed`, without
    /// revealing it. Nothing is promised of its value.
    fn oblivious_random(&self, seed: u64) -> (r: Self::Cipher);
}

/// The capability on clear values: a "ciphertext" is the byte itself. It
/// runs and measures the encrypted engines without a key.
#[derive(Clone, Copy, Debug)]
pub struct ClearScalars;

impl EncryptedScalars for ClearScalars {
    type Cipher = u8;

    type Bit = bool;

    open spec fn plain(&self, c: &u8) -> u8 {
        *c
    }

    open spec fn truth(&self, b: &bool) -> bool {
        *b
    }

    fn encrypt(&self, value: u8) -> (r: u8) {
        value
    }

    fn decrypt(&self, c: &u8) -> (r: u8) {
        *c
    }

    fn eq_clear(&self, c: &u8, value: u8) -> (r: bool) {
        *c == value
    }

    fn lt_clear(&self, c: &u8, value: u8) -> (r: bool) {
        *c < value
    }

    fn gt_clear(&self, c: &u8, value: u8) -> (r: bool) {
        *c > value
    }

    fn lt(&self, a: &u8, b: &u8) -> (r: bool) {
        *a < *b
    }

    fn gt(&self, a: &u8, b: &u8) -> (r: bool) {
        *a > *b
    }

    fn select(&self, condition: &bool, when_true: &u8, when_false: &u8) -> (r: u8) {
        if *condition {
            *when_true
        } else {
            *when_false
        }
    }

    fn add(&self, a: u8, b: u8) -> (r: u8) {
        a.wrapping_add(b)
    }

    fn rem_clear(&self, a: u8, divisor: u8) -> (r: u8) {
        a % divisor
    }

    /// The first output of a ChaCha generator seeded with `seed`.
    fn oblivious_random(&self, seed: u64) -> (r: u8) {
        let mut rng = seeded_rng(seed);
        (next_random(&mut rng) % 256) as u8
    }
}

/// Issues the seeds of oblivious random draws. One counter is shared by all
/// the games of a process, so that no two draws share a seed.
pub struct DrawCounter {
    next: AtomicU64,
}

impl DrawCounter {
    pub fn new() -> (r: Self) {
        DrawCounter { next: AtomicU64::new(0) }
    }

    /// A seed that this counter has not issued before (until 2^64 draws).
    pub fn next_seed(&self) -> u64 {
        self.next.fetch_add(1, Ordering::Relaxed)
    }
}

/// Encrypts a number of points or a card value.
pub fn encrypt_points<E: EncryptedScalars>(scalars: &E, points: u8) -> (r: E::Cipher)
    ensures
        scalars.plain(&r) == points,
{
    scalars.encrypt(points)
}

/// Encrypts the code of a phase.
pub fn encrypt_state<E: EncryptedScalars>(scalars: &E, state: GameState) -> (r: E::Cipher)
    ensures
        scalars.plain(&r) == code_of(state),
{
    encrypt_points(scalars, state.code())
}

/// The clear values of a sequence of ciphertexts.
pub open spec fn plains<E: EncryptedScalars>(scalars: &E, cards: Seq<E::Cipher>) -> Seq<u8> {
    cards.map_values(|c: E::Cipher| scalars.plain(&c))
}

/// Decrypts each card of a hand.
pub fn decrypt_cards<E: EncryptedScalars>(scalars: &E, cards: &[E::Cipher]) -> (r: Vec<u8>)
    ensures
        r@ == plains(scalars, cards@),
{
    let mut r: Vec<u8> = Vec::new();
    let mut i: usize = 0;
    while i < cards.len()
        invariant
            i <= cards@.len(),
            r@ == plains(scalars, cards@.subrange(0, i as int)),
        decreases cards@.len() - i,
    {
        assert(plains(scalars, cards@.subrange(0, i + 1)) =~= plains(
            scalars,
            cards@.subrange(0, i as int),
        ).push(scalars.plain(&cards@[i as int])));
        r.push(scalars.decrypt(&cards[i]));
        i = i + 1;
    }
    assert(cards@.subrange(0, i as int) =~= cards@);
    r
}

} // verus!
