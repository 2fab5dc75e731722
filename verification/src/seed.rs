//! The seed value and the operations that advance or fork it.

use crate::mix::{add_mod64, gamma_of, lemma_gamma_of_is_odd, mix64, mix_gamma, splitmix64_mix};
use vstd::prelude::*;

verus! {

/// A point in a SplitMix64 stream: the current `state` and the odd
/// increment `gamma` that selects the stream.
#[derive(Clone, Copy, Debug, PartialEq, Eq, Structural)]
pub struct Seed {
    pub state: u64,
    pub gamma: u64,
}

/// A generated 64-bit value with the seed to continue from.
#[derive(Clone, Copy, Debug, PartialEq, Eq, Structural)]
pub struct SeedAndValue {
    pub seed: Seed,
    pub value: u64,
}

/// A generated boolean with the seed to continue from.
#[derive(Clone, Copy, Debug, PartialEq, Eq, Structural)]
pub struct SeedAndBool {
    pub seed: Seed,
    pub value: bool,
}

/// The two seeds that a split produces.
#[derive(Clone, Copy, Debug, PartialEq, Eq, Structural)]
pub struct SeedPair {
    pub left: Seed,
    pub right: Seed,
}

/// A run of generated booleans, one byte each, with the seed to continue
/// from.
#[derive(Clone, Debug, PartialEq, Eq)]
pub struct BatchBoolResult {
    pub values: Vec<u8>,
    pub final_seed: Seed,
}

/// The byte that stands for the low bit of `output`: 1 if it is set, else 0.
pub open spec fn bool_byte(output: u64) -> u8 {
    (output % 2) as u8
}

/// `output * bound / 2^64`, rounded down: the 64-bit `output` scaled into
/// `[0, bound)`.
pub open spec fn scale_to_bound(output: u64, bound: u64) -> u64 {
    ((output * bound) / 0x1_0000_0000_0000_0000) as u64
}

/// The upper half of the 128-bit product never reaches `bound`, and a zero
/// bound scales everything to zero.
pub proof fn lemma_scale_to_bound_range(output: u64, bound: u64)
    ensures
        0 <= output * bound <= u128::MAX,
        (output * bound) / 0x1_0000_0000_0000_0000 <= u64::MAX,
        bound > 0 ==> scale_to_bound(output, bound) < bound,
        bound == 0 ==> scale_to_bound(output, bound) == 0,
{
    if bound > 0 {
        assert(0 <= output * bound < 0x1_0000_0000_0000_0000 * bound) by (nonlinear_arith)
            requires
                0 <= output < 0x1_0000_0000_0000_0000,
                bound > 0,
        ;
    } else {
        assert(output * bound == 0) by (nonlinear_arith)
            requires
                bound == 0,
        ;
    }
}

impl Seed {
    /// The seed's invariant: an odd increment, which gives the stream its
    /// full period of 2^64.
    pub open spec fn has_odd_gamma(self) -> bool {
        self.gamma % 2 == 1
    }

    /// What [`Seed::new`] returns.
    pub open spec fn derived(value: u64) -> Seed {
        Seed { state: mix64(value), gamma: gamma_of(mix64(value)) }
    }

    /// The next seed of the same stream.
    pub open spec fn advanced(self) -> Seed {
        Seed { state: add_mod64(self.state, self.gamma), gamma: self.gamma }
    }

    /// The value that the stream yields on arriving at this seed.
    pub open spec fn output(self) -> u64 {
        mix64(self.state)
    }

    /// The boolean that the stream yields on arriving at this seed: the low
    /// bit of its output.
    pub open spec fn output_bool(self) -> bool {
        self.output() % 2 == 1
    }

    /// The seed `n` steps further along the same stream.
    pub open spec fn advanced_by(self, n: nat) -> Seed {
        Seed {
            state: ((self.state + n * self.gamma) % 0x1_0000_0000_0000_0000) as u64,
            gamma: self.gamma,
        }
    }

    /// The bytes of a batch of `n` booleans: the low bits of the outputs of
    /// the next `n` steps, in order.
    pub open spec fn batch_bytes(self, n: nat) -> Seq<u8> {
        Seq::new(n, |i: int| bool_byte(self.advanced_by((i + 1) as nat).output()))
    }

    /// The seed in hand after `n` calls of [`Seed::next_bool`], each made on
    /// the seed that the call before returned.
    pub open spec fn after_bools(self, n: nat) -> Seed
        decreases n,
    {
        if n == 0 {
            self
        } else {
            self.after_bools((n - 1) as nat).spec_next_bool().seed
        }
    }

    /// The booleans that those `n` calls return, in order.
    pub open spec fn bools_seen(self, n: nat) -> Seq<bool>
        decreases n,
    {
        if n == 0 {
            Seq::empty()
        } else {
            self.bools_seen((n - 1) as nat).push(
                self.after_bools((n - 1) as nat).spec_next_bool().value,
            )
        }
    }

    /// The fresh stream that a split starts beside the stream of `self`.
    pub open spec fn forked(self) -> Seed {
        Seed { state: self.advanced().output(), gamma: gamma_of(self.advanced().output()) }
    }

    /// What [`Seed::next_u64`] returns.
    pub open spec fn spec_next_u64(&self) -> SeedAndValue {
        SeedAndValue { seed: self.advanced(), value: self.advanced().output() }
    }

    /// What [`Seed::next_bounded`] returns.
    pub open spec fn spec_next_bounded(&self, bound: u64) -> SeedAndValue {
        SeedAndValue {
            seed: self.advanced(),
            value: scale_to_bound(self.advanced().output(), bound),
        }
    }

    /// What [`Seed::next_bool`] returns.
    pub open spec fn spec_next_bool(&self) -> SeedAndBool {
        SeedAndBool { seed: self.advanced(), value: self.advanced().output_bool() }
    }

    /// What [`Seed::split`] returns.
    pub open spec fn spec_split(&self) -> SeedPair {
        SeedPair { left: self.advanced(), right: self.forked() }
    }

    /// Derives a seed from `value`: the state is the mixed value, the gamma
    /// is derived from that state.
    #[verifier::when_used_as_spec(derived)]
    pub fn new(value: u64) -> (seed: Seed)
        ensures
            seed == Seed::derived(value),
            seed.has_odd_gamma(),
    {
        let state: u64 = splitmix64_mix(value);
        let gamma: u64 = mix_gamma(state);
        Seed { state, gamma }
    }

    /// Builds a seed from its two words as they are. Nothing is checked: the
    /// caller is expected to pass an odd `gamma`.
    pub fn from_parts(state: u64, gamma: u64) -> (seed: Seed)
        ensures
            seed == (Seed { state, gamma }),
    {
        Seed { state, gamma }
    }

    /// The state word.
    pub fn state(&self) -> (state: u64)
        ensures
            state == self.state,
    {
        self.state
    }

    /// The increment.
    pub fn gamma(&self) -> (gamma: u64)
        ensures
            gamma == self.gamma,
    {
        self.gamma
    }

    /// Advances the seed by one step and returns the value of that step:
    /// the new state is the old one plus gamma, modulo 2^64, and the value
    /// is the mix of the new state.
    #[verifier::when_used_as_spec(spec_next_u64)]
    pub fn next_u64(&self) -> (r: SeedAndValue)
        ensures
            r == self.spec_next_u64(),
            r.seed.state == (self.state + self.gamma) % 0x1_0000_0000_0000_0000,
            r.seed.gamma == self.gamma,
            r.value == mix64(r.seed.state),
    {
        let new_state: u64 = self.state.wrapping_add(self.gamma);
        let output: u64 = splitmix64_mix(new_state);
        SeedAndValue { seed: Seed { state: new_state, gamma: self.gamma }, value: output }
    }

    /// Advances the seed by one step and scales the value of that step into
    /// `[0, bound)` by taking the upper half of its 128-bit product with
    /// `bound`. A zero bound yields zero.
    #[verifier::when_used_as_spec(spec_next_bounded)]
    pub fn next_bounded(&self, bound: u64) -> (r: SeedAndValue)
        ensures
            r == self.spec_next_bounded(bound),
            bound > 0 ==> r.value < bound,
            bound == 0 ==> r.value == 0,
    {
        let step: SeedAndValue = self.next_u64();
        proof {
            lemma_scale_to_bound_range(step.value, bound);
        }
        let product: u128 = (step.value as u128) * (bound as u128);
        proof {
            assert(product >> 64 == product / 0x1_0000_0000_0000_0000) by (bit_vector);
        }
        let bounded_value: u64 = (product >> 64) as u64;
        SeedAndValue { seed: step.seed, value: bounded_value }
    }

    /// Advances the seed by one step and returns the low bit of the value of
    /// that step.
    #[verifier::when_used_as_spec(spec_next_bool)]
    pub fn next_bool(&self) -> (r: SeedAndBool)
        ensures
            r == self.spec_next_bool(),
            r.value == (mix64(r.seed.state) % 2 == 1),
    {
        let step: SeedAndValue = self.next_u64();
        let output: u64 = step.value;
        assert(output & 1 == output % 2) by (bit_vector);
        SeedAndBool { seed: step.seed, value: output & 1 == 1 }
    }

    /// Forks the seed. The left seed continues this stream, one step on; the
    /// right seed starts a stream with a freshly derived increment.
    #[verifier::when_used_as_spec(spec_split)]
    pub fn split(&self) -> (pair: SeedPair)
        ensures
            pair == self.spec_split(),
            pair.right.has_odd_gamma(),
            self.has_odd_gamma() ==> pair.left.has_odd_gamma(),
    {
        let new_state: u64 = self.state.wrapping_add(self.gamma);
        let output: u64 = splitmix64_mix(new_state);
        let new_gamma: u64 = mix_gamma(output);
        let left_seed = Seed { state: new_state, gamma: self.gamma };
        let right_seed = Seed { state: output, gamma: new_gamma };
        SeedPair { left: left_seed, right: right_seed }
    }

    /// Generates `count` booleans in one call. The bytes are those that
    /// `count` calls of [`Seed::next_bool`] would yield, as 0 or 1, and the
    /// seed is the one that the last of them would return.
    pub fn next_bools_batch(&self, count: u32) -> (r: BatchBoolResult)
        ensures
            r.values@ == self.batch_bytes(count as nat),
            r.final_seed == self.advanced_by(count as nat),
    {
        let mut results: Vec<u8> = Vec::with_capacity(count as usize);
        let mut current_state: u64 = self.state;
        let gamma: u64 = self.gamma;
        proof {
            lemma_advanced_by_zero(*self);
        }
        for i in 0..count
            invariant
                gamma == self.gamma,
                current_state == self.advanced_by(i as nat).state,
                results@ == self.batch_bytes(i as nat),
        {
            current_state = current_state.wrapping_add(gamma);
            let output: u64 = splitmix64_mix(current_state);
            proof {
                lemma_advanced_by_succ(*self, i as nat);
                assert(output & 1 == output % 2) by (bit_vector);
                assert(self.batch_bytes((i + 1) as nat) == self.batch_bytes(i as nat).push(
                    bool_byte(output),
                ));
            }
            results.push(if output & 1 == 1 { 1 } else { 0 });
        }
        BatchBoolResult { values: results, final_seed: Seed { state: current_state, gamma } }
    }
}

/// Advancing by no step leaves the seed as it is.
pub proof fn lemma_advanced_by_zero(seed: Seed)
    ensures
        seed.advanced_by(0) == seed,
{
    assert(0 * seed.gamma == 0) by (nonlinear_arith);
}

/// Advancing by `n + 1` steps is advancing by `n` steps and then by one.
pub proof fn lemma_advanced_by_succ(seed: Seed, n: nat)
    ensures
        seed.advanced_by(n + 1) == seed.advanced_by(n).advanced(),
{
    assert((n + 1) * seed.gamma == n * seed.gamma + seed.gamma) by (nonlinear_arith);
}

/// Deriving is a function of the integer alone: two calls on one integer
/// give seeds that agree in state and in gamma.
pub proof fn lemma_derive_is_deterministic(x: u64, y: u64)
    requires
        x == y,
    ensures
        Seed::new(x) == Seed::new(y),
        Seed::new(x).state == Seed::new(y).state,
        Seed::new(x).gamma == Seed::new(y).gamma,
{
}

/// A derived seed has an odd gamma, whatever integer it was derived from.
pub proof fn lemma_derived_gamma_is_odd(value: u64)
    ensures
        Seed::new(value).has_odd_gamma(),
        Seed::new(value).gamma % 2 == 1,
{
    lemma_gamma_of_is_odd(mix64(value));
}

/// Both children of a split have an odd gamma, provided that the parent has
/// one: the left child keeps the parent's gamma, the right child's is
/// derived afresh.
pub proof fn lemma_split_gammas_are_odd(seed: Seed)
    requires
        seed.has_odd_gamma(),
    ensures
        seed.split().left.has_odd_gamma(),
        seed.split().right.has_odd_gamma(),
{
    lemma_gamma_of_is_odd(seed.advanced().output());
}

/// The right child of a split has an odd gamma even where the parent's is
/// even.
pub proof fn lemma_split_right_gamma_is_odd(seed: Seed)
    ensures
        seed.split().right.has_odd_gamma(),
{
    lemma_gamma_of_is_odd(seed.advanced().output());
}

/// One step adds gamma to the state, modulo 2^64, and keeps gamma.
pub proof fn lemma_advance_is_linear(seed: Seed)
    ensures
        seed.next_u64().seed.state == (seed.state + seed.gamma) % 0x1_0000_0000_0000_0000,
        seed.next_u64().seed.gamma == seed.gamma,
{
}

/// The left child of a split is the seed that one step returns: the same
/// state and the same gamma.
pub proof fn lemma_split_left_is_advance(seed: Seed)
    ensures
        seed.split().left == seed.next_u64().seed,
        seed.split().left.state == seed.next_u64().seed.state,
        seed.split().left.gamma == seed.next_u64().seed.gamma,
{
}

/// A bounded value lies below its bound, and is zero where the bound is.
pub proof fn lemma_next_bounded_range(seed: Seed, bound: u64)
    ensures
        bound > 0 ==> seed.next_bounded(bound).value < bound,
        bound == 0 ==> seed.next_bounded(bound).value == 0,
{
    lemma_scale_to_bound_range(seed.advanced().output(), bound);
}

/// Calling `next_bool` `n` times, each time on the seed that the call
/// before returned, arrives at the seed that lies `n` steps ahead.
pub proof fn lemma_after_bools_is_advanced_by(seed: Seed, n: nat)
    ensures
        seed.after_bools(n) == seed.advanced_by(n),
    decreases n,
{
    if n == 0 {
        lemma_advanced_by_zero(seed);
    } else {
        lemma_after_bools_is_advanced_by(seed, (n - 1) as nat);
        lemma_advanced_by_succ(seed, (n - 1) as nat);
    }
}

/// A batch of `n` booleans is what `n` successive calls of `next_bool`
/// give: the same seed at the end, and byte for byte the booleans that the
/// calls returned, 1 for true and 0 for false.
pub proof fn lemma_batch_is_repeated_next_bool(seed: Seed, n: nat)
    ensures
        seed.advanced_by(n) == seed.after_bools(n),
        seed.batch_bytes(n).len() == n,
        seed.bools_seen(n).len() == n,
        forall|i: int|
            0 <= i < n ==> #[trigger] seed.batch_bytes(n)[i] == (if seed.bools_seen(n)[i] {
                1u8
            } else {
                0u8
            }),
    decreases n,
{
    lemma_after_bools_is_advanced_by(seed, n);
    if n > 0 {
        let m: nat = (n - 1) as nat;
        lemma_batch_is_repeated_next_bool(seed, m);
        lemma_advanced_by_succ(seed, m);
        assert forall|i: int| 0 <= i < n implies #[trigger] seed.batch_bytes(n)[i] == (if seed.bools_seen(
            n,
        )[i] {
            1u8
        } else {
            0u8
        }) by {
            if i < m {
                assert(seed.batch_bytes(n)[i] == seed.batch_bytes(m)[i]);
                assert(seed.bools_seen(n)[i] == seed.bools_seen(m)[i]);
            } else {
                assert(seed.bools_seen(n)[i] == seed.after_bools(m).spec_next_bool().value);
            }
        }
    }
}

impl SeedAndValue {
    /// The seed to continue from.
    pub fn seed(&self) -> (seed: Seed)
        ensures
            seed == self.seed,
    {
        Seed { state: self.seed.state, gamma: self.seed.gamma }
    }

    /// The generated value.
    pub fn value(&self) -> (value: u64)
        ensures
            value == self.value,
    {
        self.value
    }
}

impl SeedAndBool {
    /// The seed to continue from.
    pub fn seed(&self) -> (seed: Seed)
        ensures
            seed == self.seed,
    {
        Seed { state: self.seed.state, gamma: self.seed.gamma }
    }

    /// The generated boolean.
    pub fn value(&self) -> (value: bool)
        ensures
            value == self.value,
    {
        self.value
    }
}

impl BatchBoolResult {
    /// A copy of the generated bytes, each 0 or 1.
    pub fn values(&self) -> (values: Vec<u8>)
        ensures
            values@ == self.values@,
    {
        self.values.clone()
    }

    /// The seed to continue from.
    pub fn final_seed(&self) -> (seed: Seed)
        ensures
            seed == self.final_seed,
    {
        Seed { state: self.final_seed.state, gamma: self.final_seed.gamma }
    }
}

impl SeedPair {
    /// The seed that continues the parent's stream.
    pub fn left(&self) -> (seed: Seed)
        ensures
            seed == self.left,
    {
        Seed { state: self.left.state, gamma: self.left.gamma }
    }

    /// The seed that starts the new stream.
    pub fn right(&self) -> (seed: Seed)
        ensures
            seed == self.right,
    {
        Seed { state: self.right.state, gamma: self.right.gamma }
    }
}

} // verus!
