//! Exponential backoff with full jitter, for reconnect loops. Durations are
//! in milliseconds.

use vstd::prelude::*;

verus! {

/// `fastrand::u64(0..=hi)`: a uniformly random integer in `[0, hi]`, drawn
/// from the thread-local generator.
#[verifier::external_body]
fn random_at_most(hi: u64) -> (r: u64)
    ensures r <= hi,
{
    fastrand::u64(0..=hi)
}

/// Backoff state: the delay ceiling grows from `base_ms` to `max_ms`.
#[derive(Debug, Clone)]
pub struct Backoff {
    pub base_ms: u64,
    pub max_ms: u64,
    pub current_ms: u64,
}

/// The ceiling after `current`: doubled, up to `max`.
pub open spec fn grown(current: u64, max: u64) -> u64 {
    if 2 * current < max { (2 * current) as u64 } else { max }
}

impl Backoff {
    /// A backoff whose first ceiling is `base_ms`.
    pub fn new(base_ms: u64, max_ms: u64) -> (b: Backoff)
        ensures b.base_ms == base_ms, b.max_ms == max_ms, b.current_ms == base_ms,
    {
        Backoff { base_ms, max_ms, current_ms: base_ms }
    }

    /// One second, growing to a minute.
    pub fn default_timing() -> (b: Backoff)
        ensures b.base_ms == 1000, b.max_ms == 60000, b.current_ms == 1000,
    {
        Backoff::new(1000, 60000)
    }

    /// Reset after a successful connection.
    pub fn reset(&mut self)
        ensures
            final(self).current_ms == old(self).base_ms,
            final(self).base_ms == old(self).base_ms,
            final(self).max_ms == old(self).max_ms,
    {
        self.current_ms = self.base_ms;
    }

    /// The next delay, then advance: a uniform random value in
    /// `[0, ceiling]` (the ceiling taken as at least one millisecond),
    /// after which the ceiling doubles up to the maximum.
    pub fn next_delay(&mut self) -> (d: u64)
        ensures
            d <= (if old(self).current_ms == 0 { 1 } else { old(self).current_ms }),
            final(self).current_ms == grown(old(self).current_ms, old(self).max_ms),
            final(self).base_ms == old(self).base_ms,
            final(self).max_ms == old(self).max_ms,
    {
        let ceiling = if self.current_ms == 0 { 1 } else { self.current_ms };
        let jittered = random_at_most(ceiling);
        let doubled: u128 = (self.current_ms as u128) * 2;
        self.current_ms = if doubled < self.max_ms as u128 { doubled as u64 } else { self.max_ms };
        jittered
    }
}

/// Once the ceiling has reached the maximum it stays there, and a ceiling
/// never exceeds the maximum after growing.
pub proof fn lemma_ceiling_saturates(current: u64, max: u64)
    ensures
        grown(current, max) <= max,
        current == max ==> grown(current, max) == max,
        current >= max ==> grown(current, max) == max,
{
}

/// Starting from `base <= max`, after `n` advances the ceiling is
/// `min(base * 2^n, max)`; in particular it is `max` as soon as
/// `base * 2^n >= max`.
pub open spec fn ceiling_after(base: u64, max: u64, n: nat) -> u64
    decreases n,
{
    if n == 0 { base } else { grown(ceiling_after(base, max, (n - 1) as nat), max) }
}

/// The ceiling reaches the maximum within the advances it takes `base`
/// to double past it, and stays there.
pub proof fn lemma_ceiling_reaches_max(base: u64, max: u64, n: nat, k: nat)
    requires
        0 < base <= max,
        vstd::arithmetic::power2::pow2(k) * base >= max,
        n >= k,
    ensures
        ceiling_after(base, max, n) == max,
    decreases n,
{
    lemma_ceiling_doubles(base, max, k);
    if n > k {
        lemma_ceiling_reaches_max(base, max, (n - 1) as nat, k);
    }
}

/// Before saturating, each advance doubles the ceiling.
proof fn lemma_ceiling_doubles(base: u64, max: u64, k: nat)
    requires 0 < base <= max,
    ensures
        vstd::arithmetic::power2::pow2(k) * base >= max ==> ceiling_after(base, max, k) == max,
        vstd::arithmetic::power2::pow2(k) * base < max ==> ceiling_after(base, max, k) == vstd::arithmetic::power2::pow2(k) * base,
    decreases k,
{
    vstd::arithmetic::power2::lemma2_to64();
    if k == 0 {
        assert(vstd::arithmetic::power2::pow2(0) == 1) by {
            vstd::arithmetic::power2::lemma_pow2(0);
            vstd::arithmetic::power::lemma_pow0(2);
        }
    } else {
        lemma_ceiling_doubles(base, max, (k - 1) as nat);
        vstd::arithmetic::power2::lemma_pow2_unfold(k);
        let p = vstd::arithmetic::power2::pow2((k - 1) as nat);
        assert(vstd::arithmetic::power2::pow2(k) == 2 * p);
        assert(2 * p * base == 2 * (p * base)) by (nonlinear_arith);
        if p * base >= max {
            assert(2 * (p * base) >= max);
        }
    }
}

} // verus!
