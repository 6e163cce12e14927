//! A small xorshift-multiply generator with a fully specified output stream.

use vstd::prelude::*;

verus! {

/// Multiplier applied to the scrambled state to produce an output word.
pub const OUTPUT_MULTIPLIER: u64 = 0x2545F4914F6CDD1D;

/// Constant mixed into a clock reading to form a seed.
pub const SEED_MIX: u64 = 0x517C_C1B7_2722_0A95;

/// The state that follows `x`: three xor-shift rounds (right 12, left 25, right 27).
pub open spec fn scramble(x: u64) -> u64 {
    let a = x ^ (x >> 12);
    let b = a ^ (a << 25);
    b ^ (b >> 27)
}

/// The word emitted when the generator moves into state `x`: the product with
/// the multiplier, reduced modulo 2^64.
pub open spec fn output_of(x: u64) -> u64 {
    ((x as nat * OUTPUT_MULTIPLIER as nat) % 0x1_0000_0000_0000_0000) as u64
}

/// The value `gen_range(upper)` yields from a generator in state `x`.
pub open spec fn range_draw(x: u64, upper: u8) -> u8 {
    (output_of(scramble(x)) as u8) % upper
}

/// The state a generator seeded with `seed` starts in: zero is replaced by one.
pub open spec fn seed_state(seed: u64) -> u64 {
    if seed == 0 { 1 } else { seed }
}

/// A xorshift round is invertible, so a nonzero state never becomes zero.
pub proof fn lemma_scramble_nonzero(x: u64)
    requires
        x != 0,
    ensures
        scramble(x) != 0,
{
    assert(x != 0 ==> ({
        let a = x ^ (x >> 12);
        let b = a ^ (a << 25);
        b ^ (b >> 27)
    }) != 0) by (bit_vector);
}

/// The generator: one 64-bit state word.
#[derive(Clone, Copy)]
pub struct SimpleRng(u64);

/// Reads `std::time::SystemTime::now` as nanoseconds since the Unix epoch,
/// cut to 64 bits; zero where the clock stands before the epoch. Nothing is
/// claimed of the reading.
#[verifier::external_body]
fn clock_nanos() -> u64 {
    let since_epoch = std::time::SystemTime::now().duration_since(std::time::UNIX_EPOCH);
    since_epoch.unwrap_or(core::time::Duration::ZERO).as_nanos() as u64
}

impl Default for SimpleRng {
    /// A generator seeded from the clock: which state it starts in is not
    /// known beforehand, only that it is a valid one. On a platform without
    /// a system clock, where reading it panics, seed with `new` instead.
    fn default() -> (r: Self)
        ensures
            r.wf(),
    {
        SimpleRng::new(clock_nanos() ^ SEED_MIX)
    }
}

impl SimpleRng {
    /// The current 64-bit state word.
    pub closed spec fn state(&self) -> u64 {
        self.0
    }

    /// The state is never zero (zero is the one fixed point of the scramble).
    pub open spec fn wf(&self) -> bool {
        self.state() != 0
    }

    /// A generator that starts from `seed`, or from 1 where `seed` is 0.
    pub fn new(seed: u64) -> (r: Self)
        ensures
            r.state() == seed_state(seed),
            r.wf(),
    {
        if seed == 0 {
            SimpleRng(1)
        } else {
            SimpleRng(seed)
        }
    }

    /// Advances the state and returns the next 64-bit word.
    pub fn next_u64(&mut self) -> (r: u64)
        ensures
            final(self).state() == scramble(old(self).state()),
            r == output_of(final(self).state()),
            old(self).wf() ==> final(self).wf(),
    {
        let mut x: u64 = self.0;
        x ^= x >> 12;
        x ^= x << 25;
        x ^= x >> 27;
        self.0 = x;
        proof {
            if old(self).wf() {
                lemma_scramble_nonzero(old(self).state());
            }
        }
        x.wrapping_mul(OUTPUT_MULTIPLIER)
    }

    /// Advances the state and returns a value below `upper`: the low byte of
    /// the next word, reduced modulo `upper`. The reduction favours small
    /// values slightly wherever `upper` does not divide 256.
    pub fn gen_range(&mut self, upper: u8) -> (r: u8)
        requires
            upper > 0,
        ensures
            final(self).state() == scramble(old(self).state()),
            r == range_draw(old(self).state(), upper),
            r < upper,
            old(self).wf() ==> final(self).wf(),
    {
        let word: u64 = self.next_u64();
        let low: u8 = #[verifier::truncate] (word as u8);
        low % upper
    }
}

} // verus!
