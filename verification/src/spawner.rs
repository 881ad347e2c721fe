//! The seeded stream of random words that decides where new particles
//! appear, and what a spawn does to the top row.

use vstd::prelude::*;
use rand::RngCore;
use rand_chacha::rand_core::SeedableRng;
use rand_chacha::ChaCha8Rng;

verus! {

/// The word at position `pos` of the stream that `ChaCha8Rng` gives for the
/// seed `seed`.
pub uninterp spec fn chacha8_word(seed: u64, pos: u128) -> u32;

/// The last position of a stream; the stream starts over after it.
pub const LAST_WORD_POS: u128 = 0xf_ffff_ffff_ffff_ffff;

/// The position after `pos`.
pub open spec fn next_pos(pos: u128) -> u128 {
    if pos >= LAST_WORD_POS {
        0
    } else {
        (pos + 1) as u128
    }
}

/// The position `k` words after `pos`.
pub open spec fn pos_after(pos: u128, k: nat) -> u128
    decreases k,
{
    if k == 0 {
        pos
    } else {
        next_pos(pos_after(pos, (k - 1) as nat))
    }
}

/// The word at position `pos` of the stream of `seed`.
///
/// Makes a `ChaCha8Rng` with `SeedableRng::seed_from_u64`, moves it to
/// `pos` with `ChaCha8Rng::set_word_pos` and reads one word with
/// `RngCore::next_u32`. All three are functions of their arguments alone,
/// which is all that the contract claims: the same seed and position give
/// the same word.
#[verifier::external_body]
fn chacha8_draw(seed: u64, pos: u128) -> (word: u32)
    ensures
        word == chacha8_word(seed, pos),
{
    let mut rng = ChaCha8Rng::seed_from_u64(seed);
    rng.set_word_pos(pos);
    rng.next_u32()
}

/// A place in the stream of one seed: what a seeded generator is, as far as
/// the simulation can tell.
pub struct Spawner {
    seed: u64,
    pos: u128,
}

impl Spawner {
    /// The seed of the stream.
    pub closed spec fn seed(&self) -> u64 {
        self.seed
    }

    /// The position of the next word.
    pub closed spec fn pos(&self) -> u128 {
        self.pos
    }

    /// The start of the stream of `seed`.
    pub fn new(seed: u64) -> (spawner: Spawner)
        ensures
            spawner.seed() == seed,
            spawner.pos() == 0,
    {
        Spawner { seed, pos: 0 }
    }

    /// Reads the next word of the stream.
    pub fn next_u32(&mut self) -> (word: u32)
        ensures
            word == chacha8_word(old(self).seed(), old(self).pos()),
            final(self).seed() == old(self).seed(),
            final(self).pos() == next_pos(old(self).pos()),
    {
        let word = chacha8_draw(self.seed, self.pos);
        self.pos = if self.pos >= LAST_WORD_POS {
            0
        } else {
            self.pos + 1
        };
        word
    }
}

/// The value that a particle spawned in frame `frame` gets: it goes through
/// `1..=254`, one step every five frames.
pub open spec fn spawn_colour(frame: u32) -> u8 {
    ((frame / 5) % 254 + 1) as u8
}

/// How many cells of the top row a spawn tries: a twentieth of the width,
/// rounded up.
pub open spec fn spawn_draws(w: int) -> nat {
    if w % 20 == 0 {
        (w / 20) as nat
    } else {
        (w / 20 + 1) as nat
    }
}

/// The grid `s` after one word of the stream was used on it: the word picks
/// the column `word % w`, and the cell of the top row in that column gets
/// `colour` if it is empty.
pub open spec fn spawn_step(s: Seq<u8>, w: int, word: u32, colour: u8) -> Seq<u8> {
    let x = word as int % w;
    if s[x] == 0 {
        s.update(x, colour)
    } else {
        s
    }
}

/// The `k`th word read from position `pos` on.
pub open spec fn spawn_word(seed: u64, pos: u128, k: nat) -> u32 {
    chacha8_word(seed, pos_after(pos, k))
}

/// The column that the `k`th word read from position `pos` on picks.
pub open spec fn spawn_column(w: int, seed: u64, pos: u128, k: nat) -> int {
    spawn_word(seed, pos, k) as int % w
}

/// The grid `s` after `k` words were read from position `pos` on and used
/// on it, one after the other.
pub open spec fn spawned(s: Seq<u8>, w: int, colour: u8, seed: u64, pos: u128, k: nat) -> Seq<u8>
    decreases k,
{
    if k == 0 {
        s
    } else {
        spawn_step(
            spawned(s, w, colour, seed, pos, (k - 1) as nat),
            w,
            spawn_word(seed, pos, (k - 1) as nat),
            colour,
        )
    }
}

/// How many of the `k` words read from position `pos` on picked an empty
/// cell, and so made a new particle.
pub open spec fn spawn_successes(
    s: Seq<u8>,
    w: int,
    colour: u8,
    seed: u64,
    pos: u128,
    k: nat,
) -> nat
    decreases k,
{
    if k == 0 {
        0
    } else {
        let prev = spawned(s, w, colour, seed, pos, (k - 1) as nat);
        let x = spawn_column(w, seed, pos, (k - 1) as nat);
        let before = spawn_successes(s, w, colour, seed, pos, (k - 1) as nat);
        if prev[x] == 0 {
            before + 1
        } else {
            before
        }
    }
}

} // verus!
