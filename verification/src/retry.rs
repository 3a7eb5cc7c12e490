//! Retry policies: which failures are retried, how often, and after what delay.
use vstd::arithmetic::power2::{
    lemma2_to64, lemma2_to64_rest, lemma_pow2_pos, lemma_pow2_strictly_increases, pow2,
};
use vstd::prelude::*;

use crate::failure::{ErrorInfo, ErrorState, FailureClass};
use crate::jitter::{
    double_of, scale, scaled, scaling_is_by_the_fraction, scaling_keeps_half, scaling_keeps_order,
    scaling_shortens, short_delays_are_doubles,
};

verus! {

/// Which failures are retried, how often, and after what delay.
#[derive(Debug, Clone, PartialEq, Eq)]
pub struct RetryPolicy {
    pub max_attempts: u32,
    pub base_delay_ms: u64,
    /// The longest delay; zero for none.
    pub max_delay_ms: u64,
    pub jitter: bool,
    pub retryable: Vec<FailureClass>,
    /// Classes forced terminal even if they also appear in `retryable`.
    pub terminal: Vec<FailureClass>,
}

/// What a `RetryPolicy` says.
#[verifier::ext_equal]
pub struct PolicyState {
    pub max_attempts: u32,
    pub base_delay_ms: u64,
    pub max_delay_ms: u64,
    pub jitter: bool,
    pub retryable: Seq<FailureClass>,
    pub terminal: Seq<FailureClass>,
}

impl View for RetryPolicy {
    type V = PolicyState;

    open spec fn view(&self) -> PolicyState {
        PolicyState {
            max_attempts: self.max_attempts,
            base_delay_ms: self.base_delay_ms,
            max_delay_ms: self.max_delay_ms,
            jitter: self.jitter,
            retryable: self.retryable@,
            terminal: self.terminal@,
        }
    }
}

/// The classes that are retried unless a policy says otherwise. A plain exception is not among
/// them: a deterministic bug is not run again.
pub open spec fn default_retryable() -> Seq<FailureClass> {
    seq![FailureClass::Transient, FailureClass::ResourceUnavailable]
}

/// The policy of a request that names none.
pub open spec fn default_policy() -> PolicyState {
    PolicyState {
        max_attempts: 2,
        base_delay_ms: 0,
        max_delay_ms: 0,
        jitter: false,
        retryable: default_retryable(),
        terminal: Seq::empty(),
    }
}

/// How many attempts a policy allows that does not say.
pub fn default_max_attempts() -> (attempts: u32)
    ensures
        attempts == 2,
{
    2
}

/// The classes that are retried unless a policy says otherwise.
pub fn default_retryable_classes() -> (classes: Vec<FailureClass>)
    ensures
        classes@ == default_retryable(),
{
    let classes = vec![FailureClass::Transient, FailureClass::ResourceUnavailable];
    assert(classes@ =~= default_retryable());
    classes
}

impl Default for RetryPolicy {
    fn default() -> (policy: Self)
        ensures
            policy@ == default_policy(),
    {
        RetryPolicy {
            max_attempts: default_max_attempts(),
            base_delay_ms: 0,
            max_delay_ms: 0,
            jitter: false,
            retryable: default_retryable_classes(),
            terminal: Vec::new(),
        }
    }
}

/// The exponent of the backoff on `attempt`: one less than it, and zero where it is zero.
pub open spec fn backoff_exponent(attempt: nat) -> nat {
    if attempt == 0 {
        0
    } else {
        (attempt - 1) as nat
    }
}

/// The delay before jitter: `base_delay_ms * 2^(attempt - 1)`, at most what `u64` holds, capped at
/// `max_delay_ms` where that is not zero.
pub open spec fn plain_delay(policy: PolicyState, attempt: nat) -> nat {
    let product = policy.base_delay_ms as nat * pow2(backoff_exponent(attempt));
    let delay = if product > u64::MAX {
        u64::MAX as nat
    } else {
        product
    };
    if policy.max_delay_ms > 0 && delay > policy.max_delay_ms {
        policy.max_delay_ms as nat
    } else {
        delay
    }
}

/// The delay in milliseconds before a task that failed on `attempt` may run again.
pub open spec fn backoff_delay(policy: PolicyState, attempt: nat, seed: nat) -> nat {
    let delay = plain_delay(policy, attempt);
    if policy.jitter && delay > 0 {
        scaled(delay, seed)
    } else {
        delay
    }
}

/// The failure is retried: as its report says, or else if its class is retryable under the policy
/// and not forced terminal.
pub open spec fn retries(policy: PolicyState, error: ErrorState) -> bool {
    match error.retryable {
        Some(retryable) => retryable,
        None => {
            &&& policy.retryable.contains(error.failure_class)
            &&& !policy.terminal.contains(error.failure_class)
        },
    }
}

/// Whether `class` is one of `classes`.
pub fn contains_class(classes: &Vec<FailureClass>, class: FailureClass) -> (found: bool)
    ensures
        found == classes@.contains(class),
{
    for i in 0..classes.len()
        invariant
            forall|j: int| 0 <= j < i ==> classes@[j] != class,
    {
        if classes[i] == class {
            return true;
        }
    }
    false
}

fn copy_classes(classes: &Vec<FailureClass>) -> (copy: Vec<FailureClass>)
    ensures
        copy@ == classes@,
{
    let mut copy: Vec<FailureClass> = Vec::new();
    for i in 0..classes.len()
        invariant
            copy@ == classes@.take(i as int),
    {
        copy.push(classes[i]);
        assert(classes@.take(i + 1) =~= classes@.take(i as int).push(classes@[i as int]));
    }
    assert(classes@.take(classes@.len() as int) =~= classes@);
    copy
}

/// `base` doubled `exponent` times, or the largest number where that is too large.
fn shifted(base: u64, exponent: u32) -> (product: u64)
    requires
        base > 0,
    ensures
        base as nat * pow2(exponent as nat) <= u64::MAX ==> product == base as nat * pow2(
            exponent as nat,
        ),
        base as nat * pow2(exponent as nat) > u64::MAX ==> product == u64::MAX,
{
    proof {
        lemma2_to64();
        lemma2_to64_rest();
        lemma_pow2_pos(exponent as nat);
    }
    if exponent >= 64 {
        proof {
            if exponent > 64 {
                lemma_pow2_strictly_increases(64, exponent as nat);
            }
            assert(base as nat * pow2(exponent as nat) > u64::MAX) by (nonlinear_arith)
                requires
                    base >= 1,
                    pow2(exponent as nat) > u64::MAX,
            ;
        }
        return u64::MAX;
    }
    proof {
        if exponent < 63 {
            lemma_pow2_strictly_increases(exponent as nat, 63);
        }
        vstd::bits::lemma_u64_shl_is_mul(1, exponent as u64);
    }
    let factor: u64 = 1u64 << (exponent as u64);
    match base.checked_mul(factor) {
        Some(product) => product,
        None => u64::MAX,
    }
}

impl RetryPolicy {
    /// Delay in milliseconds before a failed task on `attempt` (1-based) may retry. Exponential
    /// backoff `base_delay_ms * 2^(attempt-1)`, capped at `max_delay_ms`, with optional jitter in
    /// `[0.5, 1.0)` derived from `jitter_seed`. A `base_delay_ms` of 0 disables backoff and the
    /// task retries immediately.
    pub fn backoff_delay_ms(&self, attempt: u32, jitter_seed: u64) -> (delay: u64)
        ensures
            delay == backoff_delay(self@, attempt as nat, jitter_seed as nat),
    {
        if self.base_delay_ms == 0 {
            return 0;
        }
        let exponent: u32 = attempt.saturating_sub(1);
        let mut delay: u64 = shifted(self.base_delay_ms, exponent);
        if self.max_delay_ms > 0 && delay > self.max_delay_ms {
            delay = self.max_delay_ms;
        }
        if self.jitter && delay > 0 {
            delay = scale(delay, jitter_seed);
        }
        delay
    }

    /// Whether a failure is retried under the policy.
    pub fn retries(&self, error: &ErrorInfo) -> (retried: bool)
        ensures
            retried == retries(self@, error@),
    {
        match error.retryable {
            Some(retryable) => retryable,
            None => contains_class(&self.retryable, error.failure_class) && !contains_class(
                &self.terminal,
                error.failure_class,
            ),
        }
    }

    /// The same policy again.
    pub fn copy(&self) -> (policy: RetryPolicy)
        ensures
            policy@ == self@,
    {
        RetryPolicy {
            max_attempts: self.max_attempts,
            base_delay_ms: self.base_delay_ms,
            max_delay_ms: self.max_delay_ms,
            jitter: self.jitter,
            retryable: copy_classes(&self.retryable),
            terminal: copy_classes(&self.terminal),
        }
    }
}

/// A base delay of zero disables backoff.
pub proof fn no_base_no_delay(policy: PolicyState, attempt: nat, seed: nat)
    requires
        policy.base_delay_ms == 0,
    ensures
        backoff_delay(policy, attempt, seed) == 0,
{
}

/// The delay before jitter never exceeds a cap, and never shrinks from one attempt to a later one.
pub proof fn plain_delay_grows_up_to_the_cap(policy: PolicyState, attempt: nat, later: nat)
    requires
        attempt <= later,
    ensures
        policy.max_delay_ms > 0 ==> plain_delay(policy, later) <= policy.max_delay_ms,
        plain_delay(policy, attempt) <= plain_delay(policy, later) <= u64::MAX,
{
    let a = pow2(backoff_exponent(attempt));
    let b = pow2(backoff_exponent(later));
    if backoff_exponent(attempt) < backoff_exponent(later) {
        lemma_pow2_strictly_increases(backoff_exponent(attempt), backoff_exponent(later));
    }
    assert(policy.base_delay_ms as nat * a <= policy.base_delay_ms as nat * b) by (nonlinear_arith)
        requires
            a <= b,
    ;
}

/// The smaller of a delay and the cap of the policy, where there is one.
pub open spec fn under_the_cap(policy: PolicyState, delay: int) -> int {
    if policy.max_delay_ms > 0 && delay > policy.max_delay_ms {
        policy.max_delay_ms as int
    } else {
        delay
    }
}

/// The delay before jitter is the base delay after the first attempt, and twice as long after each
/// further one, up to the cap and to what a number of 64 bits holds.
pub proof fn each_attempt_doubles_the_delay(policy: PolicyState, attempt: nat)
    ensures
        plain_delay(policy, 0) == under_the_cap(policy, policy.base_delay_ms as int),
        plain_delay(policy, 1) == under_the_cap(policy, policy.base_delay_ms as int),
        attempt >= 1 ==> plain_delay(policy, attempt + 1) == under_the_cap(
            policy,
            if 2 * plain_delay(policy, attempt) > 0xffff_ffff_ffff_ffff {
                0xffff_ffff_ffff_ffff
            } else {
                2 * plain_delay(policy, attempt) as int
            },
        ),
{
    lemma2_to64();
    assert(policy.base_delay_ms * pow2(0) == policy.base_delay_ms);
    if attempt >= 1 {
        let p = pow2((attempt - 1) as nat);
        vstd::arithmetic::power2::lemma_pow2_unfold(attempt);
        assert(policy.base_delay_ms * (2 * p) == 2 * (policy.base_delay_ms * p)) by (nonlinear_arith);
    }
}

/// Without jitter the seed does not matter, and the delay is that before jitter; with jitter a delay
/// below 2^40 milliseconds is scaled by `0.5 + k / 2000`, where `k` is the seed's last three digits.
pub proof fn jitter_scales_where_it_is_asked_for(policy: PolicyState, attempt: nat, seed: nat)
    ensures
        !policy.jitter ==> backoff_delay(policy, attempt, seed) == plain_delay(policy, attempt),
        policy.jitter && plain_delay(policy, attempt) < 0x100_0000_0000 ==> {
            let exact = plain_delay(policy, attempt) * (1000 + seed % 1000);
            let delay = backoff_delay(policy, attempt, seed);
            2000 * delay <= exact <= 2000 * (delay + 1)
        },
{
    if plain_delay(policy, attempt) < 0x100_0000_0000 {
        scaling_is_by_the_fraction(plain_delay(policy, attempt), seed);
        assert(0 * (1000 + seed % 1000) == 0) by (nonlinear_arith);
    }
}

/// Jitter strictly shortens a delay, and no delay exceeds a cap.
pub proof fn jitter_shortens_up_to_the_cap(policy: PolicyState, attempt: nat, seed: nat)
    ensures
        backoff_delay(policy, attempt, seed) <= plain_delay(policy, attempt),
        policy.jitter && plain_delay(policy, attempt) > 0 ==> backoff_delay(policy, attempt, seed)
            < plain_delay(policy, attempt),
        policy.max_delay_ms > 0 ==> backoff_delay(policy, attempt, seed) <= policy.max_delay_ms,
{
    if plain_delay(policy, attempt) > 0 {
        scaling_shortens(plain_delay(policy, attempt), seed);
    }
}

/// Jitter keeps at least half of a delay below 2^53 milliseconds, and of a longer one too unless
/// the fraction is a half and double precision holds less of the delay.
pub proof fn jitter_keeps_at_least_half(policy: PolicyState, attempt: nat, seed: nat)
    requires
        plain_delay(policy, attempt) < 0x20_0000_0000_0000 || seed % 1000 != 0 || plain_delay(
            policy,
            attempt,
        ) / 2 <= double_of(plain_delay(policy, attempt)) / 2,
    ensures
        plain_delay(policy, attempt) / 2 <= backoff_delay(policy, attempt, seed),
{
    let delay = plain_delay(policy, attempt);
    scaling_keeps_half(delay, seed);
    if delay < 0x20_0000_0000_0000 {
        short_delays_are_doubles(delay);
    }
}

/// A later attempt never waits less than an earlier one with the same seed, and the delay of an
/// attempt grows with the last three digits of the seed, with jitter or without.
pub proof fn later_attempts_never_wait_less(
    policy: PolicyState,
    attempt: nat,
    later: nat,
    seed: nat,
    other: nat,
)
    requires
        attempt <= later,
        seed % 1000 <= other % 1000,
    ensures
        backoff_delay(policy, attempt, seed) <= backoff_delay(policy, later, other),
{
    plain_delay_grows_up_to_the_cap(policy, attempt, later);
    scaling_keeps_order(plain_delay(policy, attempt), plain_delay(policy, later), seed, other);
}

/// Without a say of its own, a failure is retried by default exactly if it is transient or wants
/// a resource; a plain exception is terminal by default.
pub proof fn plain_exceptions_are_terminal_by_default(error: ErrorState)
    requires
        error.retryable is None,
    ensures
        retries(default_policy(), error) <==> (error.failure_class is Transient
            || error.failure_class is ResourceUnavailable),
{
    let list = default_retryable();
    assert(list[0] == FailureClass::Transient);
    assert(list[1] == FailureClass::ResourceUnavailable);
}

} // verus!
