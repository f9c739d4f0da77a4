//! The linear congruential generator and its correctness lemmas.

use vstd::prelude::*;
use vstd::arithmetic::div_mod::{lemma_mod_bound, lemma_small_mod};
use vstd::arithmetic::mul::lemma_mul_upper_bound;

verus! {

/// Default modulus: 2^64.
pub const MODULUS: u128 = 0x1_0000_0000_0000_0000;

/// Default additive constant of the recurrence.
pub const INCREMENT: u64 = 1442695040888963407;

/// Default multiplicative constant of the recurrence.
pub const MULTIPLIER: u64 = 6364136223846793005;

/// Seed used by [`LCG::from_time`] when no clock reading is available.
pub const DEFAULT_SEED: u64 = 524764;

/// A linear congruential generator.
///
/// Holds the parameters of the recurrence
/// `state' = (multiplier * state + increment) mod modulus` together with the
/// current state. The stored state is a 64-bit value; when the modulus
/// exceeds 2^64 the reduced value is further truncated to its low 64 bits
/// before it is stored.
pub struct LCG {
    seed: u64,
    state: u64,
    modulus: u128,
    increment: u64,
    multiplier: u64,
}

/// One step of the recurrence: `(multiplier * state + increment) mod modulus`,
/// truncated to the low 64 bits so it fits the stored state.
pub open spec fn lcg_step(multiplier: u64, state: u64, increment: u64, modulus: u128) -> u64
    recommends
        modulus > 0,
{
    (((multiplier * state + increment) % (modulus as int)) % (MODULUS as int)) as u64
}

impl LCG {
    /// The seed the generator was created with (or last assigned).
    pub closed spec fn spec_seed(self) -> u64 {
        self.seed
    }

    /// The current state of the recurrence.
    pub closed spec fn spec_state(self) -> u64 {
        self.state
    }

    /// The modulus of the recurrence.
    pub closed spec fn spec_modulus(self) -> u128 {
        self.modulus
    }

    /// The additive constant of the recurrence.
    pub closed spec fn spec_increment(self) -> u64 {
        self.increment
    }

    /// The multiplicative constant of the recurrence.
    pub closed spec fn spec_multiplier(self) -> u64 {
        self.multiplier
    }

    /// A generator is well formed when its modulus is positive; the
    /// recurrence divides by the modulus, so a zero modulus is a logic error.
    pub open spec fn wf(self) -> bool {
        self.spec_modulus() > 0
    }

    /// The state after `n` further steps of the recurrence.
    pub open spec fn nth_state(self, n: nat) -> u64
        decreases n,
    {
        if n == 0 {
            self.spec_state()
        } else {
            lcg_step(
                self.spec_multiplier(),
                self.nth_state((n - 1) as nat),
                self.spec_increment(),
                self.spec_modulus(),
            )
        }
    }

    /// Create a generator from a seed, with the default modulus, increment
    /// and multiplier. The state starts at the seed.
    pub fn new(seed: u64) -> (g: LCG)
        ensures
            g.spec_seed() == seed,
            g.spec_state() == seed,
            g.spec_modulus() == MODULUS,
            g.spec_increment() == INCREMENT,
            g.spec_multiplier() == MULTIPLIER,
            g.wf(),
    {
        LCG { seed, state: seed, modulus: MODULUS, increment: INCREMENT, multiplier: MULTIPLIER }
    }

    /// Create a generator with every parameter of the recurrence overridden.
    /// The state starts at the seed.
    pub fn new_specific(seed: u64, modulus: u128, increment: u64, multiplier: u64) -> (g: LCG)
        requires
            modulus > 0,
        ensures
            g.spec_seed() == seed,
            g.spec_state() == seed,
            g.spec_modulus() == modulus,
            g.spec_increment() == increment,
            g.spec_multiplier() == multiplier,
            g.wf(),
    {
        LCG { seed, state: seed, modulus, increment, multiplier }
    }

    /// Advance the state one step of the recurrence and return the new state.
    pub fn next(&mut self) -> (r: u64)
        requires
            old(self).wf(),
        ensures
            final(self).spec_state() == lcg_step(
                old(self).spec_multiplier(),
                old(self).spec_state(),
                old(self).spec_increment(),
                old(self).spec_modulus(),
            ),
            final(self).spec_seed() == old(self).spec_seed(),
            final(self).spec_modulus() == old(self).spec_modulus(),
            final(self).spec_increment() == old(self).spec_increment(),
            final(self).spec_multiplier() == old(self).spec_multiplier(),
            r == final(self).spec_state(),
            final(self).spec_state() < final(self).spec_modulus(),
            final(self).wf(),
    {
        proof {
            lemma_mul_upper_bound(
                self.multiplier as int,
                u64::MAX as int,
                self.state as int,
                u64::MAX as int,
            );
        }
        let sum: u128 = (self.multiplier as u128) * (self.state as u128)
            + (self.increment as u128);
        let red: u128 = sum % self.modulus;
        proof {
            lemma_mod_bound(sum as int, self.modulus as int);
        }
        let low: u128 = red % MODULUS;
        proof {
            lemma_mod_bound(red as int, MODULUS as int);
            if red < MODULUS {
                lemma_small_mod(red as nat, MODULUS as nat);
            }
        }
        let ns: u64 = low as u64;
        self.state = ns;
        ns
    }

    /// Advance one step and return the new 64-bit state; the same operation
    /// as [`LCG::next`], under the name the generic RNG surface uses.
    pub fn next_u64(&mut self) -> (r: u64)
        requires
            old(self).wf(),
        ensures
            final(self).spec_state() == lcg_step(
                old(self).spec_multiplier(),
                old(self).spec_state(),
                old(self).spec_increment(),
                old(self).spec_modulus(),
            ),
            final(self).spec_seed() == old(self).spec_seed(),
            final(self).spec_modulus() == old(self).spec_modulus(),
            final(self).spec_increment() == old(self).spec_increment(),
            final(self).spec_multiplier() == old(self).spec_multiplier(),
            r == final(self).spec_state(),
            final(self).spec_state() < final(self).spec_modulus(),
            final(self).wf(),
    {
        self.next()
    }

    /// Advance one step and return the low 32 bits of the new state.
    pub fn next_u32(&mut self) -> (r: u32)
        requires
            old(self).wf(),
        ensures
            final(self).spec_state() == lcg_step(
                old(self).spec_multiplier(),
                old(self).spec_state(),
                old(self).spec_increment(),
                old(self).spec_modulus(),
            ),
            final(self).spec_seed() == old(self).spec_seed(),
            final(self).spec_modulus() == old(self).spec_modulus(),
            final(self).spec_increment() == old(self).spec_increment(),
            final(self).spec_multiplier() == old(self).spec_multiplier(),
            r == final(self).spec_state() as int % 0x1_0000_0000,
            final(self).wf(),
    {
        let x: u64 = self.next();
        proof {
            assert(x & 0xffff_ffff == x % 0x1_0000_0000) by (bit_vector);
            assert(x & 0xffff_ffff < 0x1_0000_0000) by (bit_vector);
        }
        (x & 0xffff_ffff) as u32
    }

    /// Advance one step and reduce the new state into the inclusive range
    /// `[start, end]`, as `(state mod (end - start + 1)) + start`.
    ///
    /// When `end - start + 1` does not evenly divide the modulus the result
    /// is not uniform (modulo bias); that is a documented limitation.
    pub fn range(&mut self, start: u64, end: u64) -> (r: u64)
        requires
            old(self).wf(),
            start <= end,
            end - start < u64::MAX,
        ensures
            final(self).spec_state() == lcg_step(
                old(self).spec_multiplier(),
                old(self).spec_state(),
                old(self).spec_increment(),
                old(self).spec_modulus(),
            ),
            final(self).spec_seed() == old(self).spec_seed(),
            final(self).spec_modulus() == old(self).spec_modulus(),
            final(self).spec_increment() == old(self).spec_increment(),
            final(self).spec_multiplier() == old(self).spec_multiplier(),
            r == final(self).spec_state() as int % (end - start + 1) + start,
            start <= r <= end,
            final(self).wf(),
    {
        let _ = self.next();
        let span: u64 = end - start + 1;
        proof {
            lemma_mod_bound(self.state as int, span as int);
        }
        (self.state % span) + start
    }

    /// Assign the seed field only. The running state is untouched, so the
    /// sequence the generator produces is unaffected; only the recorded seed
    /// changes.
    pub fn set_seed(&mut self, seed: u64)
        ensures
            final(self).spec_seed() == seed,
            final(self).spec_state() == old(self).spec_state(),
            final(self).spec_modulus() == old(self).spec_modulus(),
            final(self).spec_increment() == old(self).spec_increment(),
            final(self).spec_multiplier() == old(self).spec_multiplier(),
    {
        self.seed = seed;
    }

    /// Advance one step and return a reference to the element of `v` at the
    /// index `state mod v.len()`; the result is always an element of `v`.
    ///
    /// The slice must be non-empty: there is no element to hand back from an
    /// empty slice.
    pub fn pick<'a, T>(&'a mut self, v: &'a [T]) -> (r: &'a T)
        requires
            old(self).wf(),
            v@.len() >= 1,
        ensures
            final(self).spec_state() == lcg_step(
                old(self).spec_multiplier(),
                old(self).spec_state(),
                old(self).spec_increment(),
                old(self).spec_modulus(),
            ),
            final(self).spec_seed() == old(self).spec_seed(),
            final(self).spec_modulus() == old(self).spec_modulus(),
            final(self).spec_increment() == old(self).spec_increment(),
            final(self).spec_multiplier() == old(self).spec_multiplier(),
            *r == v@[final(self).spec_state() as int % v@.len() as int],
            v@.contains(*r),
            final(self).wf(),
    {
        let last: u64 = (v.len() - 1) as u64;
        let idx64: u64 = self.range(0, last);
        let i: usize = idx64 as usize;
        proof {
            assert(0 <= (i as int) && (i as int) < v@.len());
            assert(v@.contains(v@[i as int]));
        }
        &v[i]
    }

    /// Create a generator from an optional wall-clock reading in whole
    /// seconds since the epoch, with the default parameters. When no reading
    /// is available (`None`), the fixed fallback seed [`DEFAULT_SEED`] is
    /// used instead, so construction never fails.
    pub fn from_time(secs: Option<u64>) -> (g: LCG)
        ensures
            g.spec_seed() == (match secs {
                Option::Some(t) => t,
                Option::None => DEFAULT_SEED,
            }),
            g.spec_state() == g.spec_seed(),
            g.spec_modulus() == MODULUS,
            g.spec_increment() == INCREMENT,
            g.spec_multiplier() == MULTIPLIER,
            g.wf(),
    {
        match secs {
            Option::Some(t) => LCG::new(t),
            Option::None => LCG::new(DEFAULT_SEED),
        }
    }

    /// Create a generator from an 8-byte seed, decoded as a little-endian
    /// 64-bit integer, with the default parameters.
    pub fn from_seed(seed: [u8; 8]) -> (g: LCG)
        ensures
            g.spec_seed() == le_u64(seed@),
            g.spec_state() == le_u64(seed@),
            g.spec_modulus() == MODULUS,
            g.spec_increment() == INCREMENT,
            g.spec_multiplier() == MULTIPLIER,
            g.wf(),
    {
        let s: u64 = (seed[0] as u64)
            | ((seed[1] as u64) << 8)
            | ((seed[2] as u64) << 16)
            | ((seed[3] as u64) << 24)
            | ((seed[4] as u64) << 32)
            | ((seed[5] as u64) << 40)
            | ((seed[6] as u64) << 48)
            | ((seed[7] as u64) << 56);
        LCG::new(s)
    }

    /// Rebuild a generator from its five recorded fields, exactly as they
    /// were observed: unlike [`LCG::new_specific`], the state is restored
    /// independently of the seed. Together with the field accessors this
    /// supports serializing a generator and restoring it unchanged.
    pub fn from_parts(seed: u64, state: u64, modulus: u128, increment: u64, multiplier: u64) -> (g:
        LCG)
        requires
            modulus > 0,
        ensures
            g.spec_seed() == seed,
            g.spec_state() == state,
            g.spec_modulus() == modulus,
            g.spec_increment() == increment,
            g.spec_multiplier() == multiplier,
            g.wf(),
    {
        LCG { seed, state, modulus, increment, multiplier }
    }

    /// The seed the generator was created with (or last assigned).
    pub fn seed(&self) -> (r: u64)
        ensures
            r == self.spec_seed(),
    {
        self.seed
    }

    /// The current state of the recurrence.
    pub fn state(&self) -> (r: u64)
        ensures
            r == self.spec_state(),
    {
        self.state
    }

    /// The modulus of the recurrence.
    pub fn modulus(&self) -> (r: u128)
        ensures
            r == self.spec_modulus(),
    {
        self.modulus
    }

    /// The additive constant of the recurrence.
    pub fn increment(&self) -> (r: u64)
        ensures
            r == self.spec_increment(),
    {
        self.increment
    }

    /// The multiplicative constant of the recurrence.
    pub fn multiplier(&self) -> (r: u64)
        ensures
            r == self.spec_multiplier(),
    {
        self.multiplier
    }

    /// Fill `dest` with the byte stream of the generator: successive states,
    /// each laid out as 8 little-endian bytes, the last word truncated to
    /// fit. The length of `dest` is unchanged, and the generator advances by
    /// exactly as many steps as words are needed to cover it.
    pub fn fill_bytes(&mut self, dest: &mut Vec<u8>)
        requires
            old(self).wf(),
        ensures
            final(dest)@.len() == old(dest)@.len(),
            forall|q: int|
                0 <= q < final(dest)@.len() ==> final(dest)@[q] == byte_of_word(
                    old(self).nth_state((q / 8 + 1) as nat),
                    q % 8,
                ),
            final(self).spec_state() == old(self).nth_state(word_count(old(dest)@.len() as int) as nat),
            final(self).spec_seed() == old(self).spec_seed(),
            final(self).spec_modulus() == old(self).spec_modulus(),
            final(self).spec_increment() == old(self).spec_increment(),
            final(self).spec_multiplier() == old(self).spec_multiplier(),
            final(self).wf(),
    {
        let ghost g0: LCG = *self;
        let len: usize = dest.len();
        let count: usize = len / 8 + (if len % 8 != 0 { 1 } else { 0 });
        let mut words: Vec<u64> = Vec::new();
        let mut j: usize = 0;
        while j < count
            invariant
                j <= count,
                count == word_count(len as int),
                words@.len() == j,
                self.wf(),
                self.spec_seed() == g0.spec_seed(),
                self.spec_modulus() == g0.spec_modulus(),
                self.spec_increment() == g0.spec_increment(),
                self.spec_multiplier() == g0.spec_multiplier(),
                self.spec_state() == g0.nth_state(j as nat),
                forall|t: int| 0 <= t < j ==> words@[t] == g0.nth_state((t + 1) as nat),
            decreases count - j,
        {
            let w: u64 = self.next();
            words.push(w);
            j = j + 1;
        }
        let mut i: usize = 0;
        while i < len
            invariant
                i <= len,
                len == old(dest)@.len(),
                dest@.len() == len,
                count == word_count(len as int),
                words@.len() == count,
                forall|t: int| 0 <= t < count ==> words@[t] == g0.nth_state((t + 1) as nat),
                forall|q: int|
                    0 <= q < i ==> dest@[q] == byte_of_word(
                        g0.nth_state((q / 8 + 1) as nat),
                        q % 8,
                    ),
            decreases len - i,
        {
            let wi: usize = i / 8;
            let k: usize = i % 8;
            proof {
                assert(wi as int == i as int / 8);
                assert(i < len);
                assert((i as int) / 8 < word_count(len as int));
            }
            let w: u64 = words[wi];
            let shift: u64 = 8 * (k as u64);
            let masked: u64 = (w >> shift) & 0xff;
            proof {
                assert((w >> shift) & 0xff < 256) by (bit_vector);
            }
            dest[i] = masked as u8;
            i = i + 1;
        }
    }
}

/// How many 64-bit words cover `n` bytes: `n / 8`, rounded up.
pub open spec fn word_count(n: int) -> int {
    if n % 8 == 0 {
        n / 8
    } else {
        n / 8 + 1
    }
}

/// Byte `k` (little-endian, counting from the least significant) of a
/// 64-bit word.
pub open spec fn byte_of_word(w: u64, k: int) -> u8
    recommends
        0 <= k < 8,
{
    ((w >> ((8 * k) as u64)) & 0xff) as u8
}

/// One step of the recurrence always lands strictly below the modulus:
/// the value is reduced modulo the modulus, and the further truncation to
/// 64 bits can only shrink it.
pub proof fn lemma_step_bound(multiplier: u64, state: u64, increment: u64, modulus: u128)
    requires
        modulus > 0,
    ensures
        lcg_step(multiplier, state, increment, modulus) < modulus,
{
    lemma_mul_upper_bound(multiplier as int, u64::MAX as int, state as int, u64::MAX as int);
    let x = multiplier * state + increment;
    lemma_mod_bound(x, modulus as int);
    let r1 = x % (modulus as int);
    lemma_mod_bound(r1, MODULUS as int);
    if r1 < MODULUS {
        lemma_small_mod(r1 as nat, MODULUS as nat);
    }
}

/// The state is strictly below the modulus after any positive number of
/// steps, whatever state the generator started from.
pub proof fn lemma_state_bound(g: LCG, n: nat)
    requires
        g.wf(),
        n >= 1,
    ensures
        g.nth_state(n) < g.spec_modulus(),
{
    lemma_step_bound(
        g.spec_multiplier(),
        g.nth_state((n - 1) as nat),
        g.spec_increment(),
        g.spec_modulus(),
    );
}

/// Determinism: the stream of states depends only on the current state and
/// the three parameters of the recurrence. Two generators that agree on
/// those — whatever their recorded seeds — produce the same state after any
/// number of steps. In particular, a generator rebuilt from its recorded
/// fields continues with exactly the sequence the original would have
/// produced.
pub proof fn lemma_stream_determinism(a: LCG, b: LCG, n: nat)
    requires
        a.spec_state() == b.spec_state(),
        a.spec_modulus() == b.spec_modulus(),
        a.spec_increment() == b.spec_increment(),
        a.spec_multiplier() == b.spec_multiplier(),
    ensures
        a.nth_state(n) == b.nth_state(n),
    decreases n,
{
    if n > 0 {
        lemma_stream_determinism(a, b, (n - 1) as nat);
    }
}

/// The little-endian 64-bit integer held in an 8-byte sequence.
pub open spec fn le_u64(s: Seq<u8>) -> u64
    recommends
        s.len() == 8,
{
    (s[0] as u64)
    | ((s[1] as u64) << 8)
    | ((s[2] as u64) << 16)
    | ((s[3] as u64) << 24)
    | ((s[4] as u64) << 32)
    | ((s[5] as u64) << 40)
    | ((s[6] as u64) << 48)
    | ((s[7] as u64) << 56)
}

} // verus!
