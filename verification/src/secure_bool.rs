//! Tri-state secure values and the bit patterns that carry them in memory.
//!
//! A plain boolean is one corrupted bit away from its opposite. A
//! [`SecureBool`] has a third state, `Error`, which every unset or damaged
//! value falls into, and a [`TriStateCode`] spreads the three states over
//! 64-bit patterns that differ from one another in at least a quarter of
//! their bits.

use vstd::prelude::*;

verus! {

/// A boolean with an explicit error state.
///
/// `Error` is the value of anything that was never set; it is never read as
/// `False`.
#[derive(Debug, Clone, Copy, PartialEq, Eq, Structural)]
pub enum SecureBool {
    True,
    False,
    Error,
}

impl Default for SecureBool {
    fn default() -> (r: SecureBool)
        ensures
            r == SecureBool::Error,
    {
        SecureBool::Error
    }
}

impl From<bool> for SecureBool {
    fn from(cond: bool) -> (r: SecureBool) {
        if cond {
            SecureBool::True
        } else {
            SecureBool::False
        }
    }
}

impl vstd::std_specs::convert::FromSpecImpl<bool> for SecureBool {
    open spec fn obeys_from_spec() -> bool {
        true
    }

    open spec fn from_spec(cond: bool) -> SecureBool {
        if cond {
            SecureBool::True
        } else {
            SecureBool::False
        }
    }
}

/// Number of bits in a pattern.
pub const PATTERN_BITS: u32 = 64;

/// Least number of bit positions in which any two patterns of a code differ:
/// a quarter of the pattern.
pub const MIN_DISTANCE: u32 = 16;

/// Whether bit `i` of `x` is set.
pub open spec fn bit_at(x: u64, i: nat) -> bool {
    (x >> (i as u64)) & 1 == 1
}

/// Number of set bits among the lowest `n` bits of `x`.
pub open spec fn ones_below(x: u64, n: nat) -> nat
    decreases n,
{
    if n == 0 {
        0
    } else {
        ones_below(x, (n - 1) as nat) + if bit_at(x, (n - 1) as nat) {
            1nat
        } else {
            0nat
        }
    }
}

/// Number of bit positions in which `a` and `b` differ.
pub open spec fn hamming(a: u64, b: u64) -> nat {
    ones_below(a ^ b, 64)
}

/// Whether `truth` and `error` can serve as the `True` and `Error` patterns
/// of a code: `error` is at least [`MIN_DISTANCE`] bits away from `truth` and
/// from its complement.
pub open spec fn separated(truth: u64, error: u64) -> bool {
    MIN_DISTANCE <= hamming(truth, error) <= PATTERN_BITS - MIN_DISTANCE
}

/// Among the lowest `n` bits, the set bits of `x` and those of `!x` add up to
/// `n`.
pub proof fn lemma_ones_below_complement(x: u64, n: nat)
    requires
        n <= 64,
    ensures
        ones_below(x, n) + ones_below(!x, n) == n,
    decreases n,
{
    if n > 0 {
        lemma_ones_below_complement(x, (n - 1) as nat);
        let i = (n - 1) as u64;
        assert(((x >> i) & 1 == 1) != ((!x >> i) & 1 == 1)) by (bit_vector)
            requires
                i < 64,
        ;
    }
}

/// A word that is zero has no set bits.
pub proof fn lemma_ones_below_zero(n: nat)
    ensures
        ones_below(0, n) == 0,
    decreases n,
{
    if n > 0 {
        lemma_ones_below_zero((n - 1) as nat);
        let i = (n - 1) as u64;
        assert((0u64 >> i) & 1 == 0) by (bit_vector);
    }
}

/// Whether the lowest `n` bits of `x` are all clear.
pub open spec fn low_bits_clear(x: u64, n: nat) -> bool {
    n == 0 || x << ((64 - n) as u64) == 0
}

/// If none of the lowest `n` bits of `x` is set, they are all clear.
pub proof fn lemma_no_ones_low_bits_clear(x: u64, n: nat)
    requires
        n <= 64,
        ones_below(x, n) == 0,
    ensures
        low_bits_clear(x, n),
    decreases n,
{
    if n > 0 {
        lemma_no_ones_low_bits_clear(x, (n - 1) as nat);
        let i = (n - 1) as u64;
        let k = (64 - n) as u64;
        if n == 1 {
            assert(x << 63 == 0) by (bit_vector)
                requires
                    (x >> 0) & 1 != 1,
            ;
        } else {
            let j = (k + 1) as u64;
            assert(x << k == 0) by (bit_vector)
                requires
                    k < 63,
                    j == k + 1,
                    i == 63 - k,
                    x << j == 0,
                    (x >> i) & 1 != 1,
            ;
        }
    }
}

/// A word with no set bit among its 64 bits is zero.
pub proof fn lemma_no_ones_is_zero(x: u64)
    requires
        ones_below(x, 64) == 0,
    ensures
        x == 0,
{
    lemma_no_ones_low_bits_clear(x, 64);
    assert(x == 0) by (bit_vector)
        requires
            x << 0 == 0,
    ;
}

/// Two words at distance zero are the same word.
pub proof fn lemma_hamming_zero(a: u64, b: u64)
    ensures
        hamming(a, b) == 0 <==> a == b,
{
    if a == b {
        assert(a ^ b == 0) by (bit_vector)
            requires
                a == b,
        ;
        lemma_ones_below_zero(64);
    }
    if hamming(a, b) == 0 {
        lemma_no_ones_is_zero(a ^ b);
        assert(a == b) by (bit_vector)
            requires
                a ^ b == 0,
        ;
    }
}

/// The distance from `b` to the complement of `a` is what the distance from
/// `b` to `a` leaves of the 64 bits.
pub proof fn lemma_hamming_complement(a: u64, b: u64)
    ensures
        hamming(!a, b) == 64 - hamming(a, b),
{
    assert(!a ^ b == !(a ^ b)) by (bit_vector);
    lemma_ones_below_complement(a ^ b, 64);
}

/// The word with its lower half set and its upper half clear.
pub const LOWER_HALF: u64 = 0x0000_0000_FFFF_FFFF;

/// Among the lowest `n` bits of the lower half, as many are set as lie in the
/// lower half.
pub proof fn lemma_ones_below_lower_half(n: nat)
    requires
        n <= 64,
    ensures
        ones_below(LOWER_HALF, n) == if n <= 32 {
            n
        } else {
            32
        },
    decreases n,
{
    if n > 0 {
        lemma_ones_below_lower_half((n - 1) as nat);
        let i = (n - 1) as u64;
        assert(((0x0000_0000_FFFF_FFFFu64 >> i) & 1 == 1) == (i < 32)) by (bit_vector)
            requires
                i < 64,
        ;
    }
}

/// Flipping the lower half of a word gives a word that is separated from it.
pub proof fn lemma_flipped_half_is_separated(truth: u64)
    ensures
        hamming(truth, truth ^ LOWER_HALF) == 32,
        separated(truth, truth ^ LOWER_HALF),
{
    assert(truth ^ (truth ^ 0x0000_0000_FFFF_FFFFu64) == 0x0000_0000_FFFF_FFFFu64)
        by (bit_vector);
    lemma_ones_below_lower_half(64);
}

/// Counts the bit positions in which `a` and `b` differ.
pub fn hamming_distance(a: u64, b: u64) -> (d: u32)
    ensures
        d == hamming(a, b),
        d <= PATTERN_BITS,
{
    let diff: u64 = a ^ b;
    let mut d: u32 = 0;
    let mut i: u32 = 0;
    while i < 64
        invariant
            i <= 64,
            d == ones_below(diff, i as nat),
            d <= i,
        decreases 64 - i,
    {
        if (diff >> i) & 1 == 1 {
            d = d + 1;
        }
        i = i + 1;
    }
    d
}

/// The three bit patterns that stand for `True`, `False` and `Error`.
///
/// `True` and `Error` are two words chosen at random, best once for each
/// build; `False` is the complement of `True`. A code exists only for words
/// that are [`separated`], so its three patterns are pairwise at least
/// [`MIN_DISTANCE`] bits apart.
#[derive(Debug, Clone, Copy)]
pub struct TriStateCode {
    truth: u64,
    error: u64,
}

impl TriStateCode {
    /// The invariant of a code: its `True` and `Error` words are separated.
    #[verifier::type_invariant]
    pub closed spec fn wf(&self) -> bool {
        separated(self.truth, self.error)
    }

    /// The pattern that stands for `value`.
    pub closed spec fn pattern(&self, value: SecureBool) -> u64 {
        match value {
            SecureBool::True => self.truth,
            SecureBool::False => !self.truth,
            SecureBool::Error => self.error,
        }
    }

    /// The value that `word` stands for: `True` or `False` for exactly their
    /// patterns, `Error` for every other word.
    pub open spec fn meaning(&self, word: u64) -> SecureBool {
        if word == self.pattern(SecureBool::True) {
            SecureBool::True
        } else if word == self.pattern(SecureBool::False) {
            SecureBool::False
        } else {
            SecureBool::Error
        }
    }

    /// Makes the code with `truth` for `True`, its complement for `False` and
    /// `error` for `Error`, or `None` where the two words are not separated.
    pub fn new(truth: u64, error: u64) -> (code: Option<TriStateCode>)
        ensures
            code.is_some() <==> separated(truth, error),
            code matches Some(c) ==> {
                &&& c.wf()
                &&& c.pattern(SecureBool::True) == truth
                &&& c.pattern(SecureBool::False) == !truth
                &&& c.pattern(SecureBool::Error) == error
            },
    {
        let d = hamming_distance(truth, error);
        if MIN_DISTANCE <= d && d <= PATTERN_BITS - MIN_DISTANCE {
            Some(TriStateCode { truth, error })
        } else {
            None
        }
    }

    /// Makes a code from two random words, whatever they are: the code of
    /// `truth` and `error` where they are separated, and else the code of
    /// `truth` and `truth` with its lower half flipped.
    pub fn from_random(truth: u64, error: u64) -> (code: TriStateCode)
        ensures
            code.wf(),
            code.pattern(SecureBool::True) == truth,
            code.pattern(SecureBool::False) == !truth,
            code.pattern(SecureBool::Error) == if separated(truth, error) {
                error
            } else {
                truth ^ LOWER_HALF
            },
    {
        match TriStateCode::new(truth, error) {
            Some(code) => code,
            None => {
                proof {
                    lemma_flipped_half_is_separated(truth);
                }
                TriStateCode { truth, error: truth ^ LOWER_HALF }
            },
        }
    }

    /// The pattern that stands for `value`.
    pub fn encode(&self, value: SecureBool) -> (word: u64)
        ensures
            word == self.pattern(value),
    {
        match value {
            SecureBool::True => self.truth,
            SecureBool::False => !self.truth,
            SecureBool::Error => self.error,
        }
    }

    /// The value that `word` stands for.
    pub fn decode(&self, word: u64) -> (value: SecureBool)
        ensures
            value == self.meaning(word),
    {
        if word == self.truth {
            SecureBool::True
        } else if word == !self.truth {
            SecureBool::False
        } else {
            SecureBool::Error
        }
    }

    /// Any two different values of a code have patterns that differ in at
    /// least [`MIN_DISTANCE`] bit positions; in particular the three patterns
    /// are pairwise distinct.
    pub proof fn lemma_patterns_far_apart(&self, a: SecureBool, b: SecureBool)
        requires
            self.wf(),
            a != b,
        ensures
            hamming(self.pattern(a), self.pattern(b)) >= MIN_DISTANCE,
            self.pattern(a) != self.pattern(b),
    {
        let t = self.truth;
        let e = self.error;
        lemma_hamming_complement(t, e);
        lemma_hamming_complement(t, t);
        lemma_hamming_zero(t, t);
        assert(t ^ e == e ^ t) by (bit_vector);
        assert(!t ^ e == e ^ !t) by (bit_vector);
        assert(!t ^ t == t ^ !t) by (bit_vector);
        lemma_hamming_zero(self.pattern(a), self.pattern(b));
    }

    /// Decoding undoes encoding.
    pub proof fn lemma_decode_encode(&self, value: SecureBool)
        requires
            self.wf(),
        ensures
            self.meaning(self.pattern(value)) == value,
    {
        if value != SecureBool::True {
            self.lemma_patterns_far_apart(value, SecureBool::True);
        }
        if value != SecureBool::False {
            self.lemma_patterns_far_apart(value, SecureBool::False);
        }
    }

    /// A word that differs from the pattern of `value` in fewer than
    /// [`MIN_DISTANCE`] bit positions never stands for another value than
    /// `value` or `Error`: no corruption of that few bits turns `True` into
    /// `False`, `False` into `True`, or `Error` into either.
    pub proof fn lemma_small_corruption_is_caught(&self, value: SecureBool, word: u64)
        requires
            self.wf(),
            hamming(self.pattern(value), word) < MIN_DISTANCE,
        ensures
            self.meaning(word) == value || self.meaning(word) == SecureBool::Error,
    {
        let other = self.meaning(word);
        if other != value && other != SecureBool::Error {
            assert(word == self.pattern(other));
            self.lemma_patterns_far_apart(value, other);
        }
    }
}

} // verus!
