//! The retry controller: a bounded sequence of delivery attempts with an
//! exactly specified, exponentially growing delay between them. The first
//! success ends the sequence; when every attempt fails, the last failure is
//! the one reported.

use vstd::prelude::*;
use crate::error::FluentError;
use crate::retry_conf::RetryConf;

verus! {

/// What one delivery attempt came to.
#[derive(Debug, Clone, PartialEq)]
pub enum AttemptOutcome {
    /// The payload was written in full.
    Delivered,
    /// The attempt failed for the given reason.
    Failed(FluentError),
}

/// The delay slept after attempt `i` (counting from zero) before the next
/// one: the base delay, multiplied by the configured rational each step,
/// rounded up, and saturating at the largest representable delay.
pub open spec fn delay_spec(conf: RetryConf, i: nat) -> u64
    decreases i,
{
    if i == 0 {
        conf.base_delay
    } else {
        let prev = delay_spec(conf, (i - 1) as nat) as int;
        let q = (prev * conf.multiplier_num + conf.multiplier_den - 1) / (conf.multiplier_den
            as int);
        if q > u64::MAX {
            u64::MAX
        } else {
            q as u64
        }
    }
}

/// How many attempts the controller makes before stopping, given the outcome
/// each attempt would have: the first success ends the sequence, and at most
/// `max` attempts are made.
pub open spec fn invocations_spec(outcomes: Seq<AttemptOutcome>, max: nat) -> nat
    decreases max,
{
    if max <= 1 {
        1
    } else if outcomes[0] is Delivered {
        1
    } else {
        1 + invocations_spec(outcomes.drop_first(), (max - 1) as nat)
    }
}

/// The controller never makes fewer than one or more than `max` attempts.
pub proof fn lemma_invocations_bounds(outcomes: Seq<AttemptOutcome>, max: nat)
    requires
        max >= 1,
    ensures
        1 <= invocations_spec(outcomes, max) <= max,
    decreases max,
{
    if max > 1 && !(outcomes[0] is Delivered) {
        lemma_invocations_bounds(outcomes.drop_first(), (max - 1) as nat);
    }
}

/// When every attempt up to the ceiling fails, exactly `max` attempts are
/// made: the controller exhausts its budget.
pub proof fn lemma_all_attempts_fail(outcomes: Seq<AttemptOutcome>, max: nat)
    requires
        max >= 1,
        outcomes.len() >= max,
        forall|i: int| 0 <= i < max ==> !((#[trigger] outcomes[i]) is Delivered),
    ensures
        invocations_spec(outcomes, max) == max,
    decreases max,
{
    if max > 1 {
        let tail = outcomes.drop_first();
        assert(forall|i: int| 0 <= i < max - 1 ==> tail[i] == outcomes[i + 1]);
        lemma_all_attempts_fail(tail, (max - 1) as nat);
    }
}

/// A single-attempt ceiling means a single attempt, whatever its outcome.
pub proof fn lemma_single_attempt(outcomes: Seq<AttemptOutcome>)
    ensures
        invocations_spec(outcomes, 1) == 1,
{
}

/// When the first attempt succeeds, exactly one attempt is made, whatever
/// the ceiling.
pub proof fn lemma_first_attempt_succeeds(outcomes: Seq<AttemptOutcome>, max: nat)
    requires
        max >= 1,
        outcomes.len() >= 1,
        outcomes[0] is Delivered,
    ensures
        invocations_spec(outcomes, max) == 1,
{
}

/// Each delay is at least the one before it: the inter-attempt delay grows
/// monotonically.
pub proof fn lemma_delay_monotone(conf: RetryConf, i: nat)
    requires
        conf.wf(),
    ensures
        delay_spec(conf, i + 1) >= delay_spec(conf, i),
{
    let d = delay_spec(conf, i) as int;
    let num = conf.multiplier_num as int;
    let den = conf.multiplier_den as int;
    let x = d * num + den - 1;
    let q = x / den;
    vstd::arithmetic::mul::lemma_mul_inequality(den, num, d);
    assert(d * den <= d * num) by {
        vstd::arithmetic::mul::lemma_mul_is_commutative(d, den);
        vstd::arithmetic::mul::lemma_mul_is_commutative(d, num);
    }
    assert((d * den + den - 1) / den == d) by {
        vstd::arithmetic::div_mod::lemma_div_multiples_vanish_fancy(d, den - 1, den);
        vstd::arithmetic::mul::lemma_mul_is_commutative(d, den);
    }
    vstd::arithmetic::div_mod::lemma_div_is_ordered(d * den + den - 1, x, den);
}

/// The exact growth law: as long as the next delay does not saturate, it is
/// at least the previous delay times the configured multiplier — written
/// without division as `next * den >= prev * num`.
pub proof fn lemma_backoff_growth(conf: RetryConf, i: nat)
    requires
        conf.wf(),
        (delay_spec(conf, i) * conf.multiplier_num + conf.multiplier_den - 1) / (
        conf.multiplier_den as int) <= u64::MAX,
    ensures
        delay_spec(conf, (i + 1) as nat) * conf.multiplier_den >= delay_spec(conf, i)
            * conf.multiplier_num,
{
    let d = delay_spec(conf, i) as int;
    let num = conf.multiplier_num as int;
    let den = conf.multiplier_den as int;
    let x = d * num + den - 1;
    let q = x / den;
    vstd::arithmetic::div_mod::lemma_fundamental_div_mod(x, den);
    vstd::arithmetic::div_mod::lemma_mod_bound(x, den);
    assert(q * den == x - x % den);
    assert(q * den >= d * num);
    assert(delay_spec(conf, (i + 1) as nat) == q);
}

fn next_delay(d: u64, num: u64, den: u64) -> (r: u64)
    requires
        den >= 1,
    ensures
        r as int == ({
            let q = (d * num + den - 1) / (den as int);
            if q > u64::MAX {
                u64::MAX as int
            } else {
                q
            }
        }),
{
    proof {
        vstd::arithmetic::mul::lemma_mul_upper_bound(
            d as int,
            u64::MAX as int,
            num as int,
            u64::MAX as int,
        );
    }
    let wide: u128 = (d as u128) * (num as u128) + ((den - 1) as u128);
    let q: u128 = wide / (den as u128);
    if q > u64::MAX as u128 {
        u64::MAX
    } else {
        q as u64
    }
}

/// The controller's position inside a live retry sequence, for a caller that
/// performs the attempts itself: how many attempts it has made, and the delay
/// to sleep before the next one.
pub struct RetryState {
    pub attempts_made: u32,
    pub next_delay: u64,
}

impl RetryState {
    /// At least one attempt made, no more than the ceiling, and the pending
    /// delay is exactly the one the schedule prescribes.
    pub open spec fn wf(&self, conf: RetryConf) -> bool {
        &&& 1 <= self.attempts_made <= conf.max_attempts
        &&& self.next_delay == delay_spec(conf, (self.attempts_made - 1) as nat)
    }

    /// The state after the caller's first attempt.
    pub fn start(conf: &RetryConf) -> (s: Self)
        requires
            conf.wf(),
        ensures
            s.wf(*conf),
            s.attempts_made == 1,
    {
        RetryState { attempts_made: 1, next_delay: conf.base_delay }
    }

    /// After a failed attempt: either the delay to sleep before retrying, or
    /// nothing when the ceiling is reached and the failure is final.
    pub fn after_failure(&mut self, conf: &RetryConf) -> (d: Option<u64>)
        requires
            old(self).wf(*conf),
            conf.wf(),
        ensures
            final(self).wf(*conf),
            old(self).attempts_made < conf.max_attempts ==> d == Some(
                delay_spec(*conf, (old(self).attempts_made - 1) as nat),
            ) && final(self).attempts_made == old(self).attempts_made + 1,
            old(self).attempts_made >= conf.max_attempts ==> d is None && *final(self) == *old(
                self,
            ),
    {
        if self.attempts_made < conf.max_attempts {
            let d = self.next_delay;
            self.next_delay = next_delay(d, conf.multiplier_num, conf.multiplier_den);
            self.attempts_made = self.attempts_made + 1;
            Some(d)
        } else {
            None
        }
    }
}

/// The controller's report: how many attempts were made, the delays slept
/// between them, and the final outcome.
pub struct DeliveryReport {
    /// How many times the transport was invoked.
    pub invocations: u32,
    /// The delay slept after each failed, non-final attempt, in order.
    pub delays: Vec<u64>,
    /// Success, or the last observed failure.
    pub outcome: Result<(), FluentError>,
}

fn duplicate_error(e: &FluentError) -> (r: FluentError)
    ensures
        r == *e,
{
    match e {
        FluentError::AddressResolutionFailure(s) => FluentError::AddressResolutionFailure(
            s.clone(),
        ),
        FluentError::ConnectFailure(s) => FluentError::ConnectFailure(s.clone()),
        FluentError::WriteFailure(s) => FluentError::WriteFailure(s.clone()),
        FluentError::EncodeFailure(s) => FluentError::EncodeFailure(s.clone()),
    }
}

/// Run the whole retry sequence against a fixed script of attempt outcomes:
/// stop at the first success, sleep the specified growing delay between
/// failed attempts, make at most `max_attempts` attempts, and report the
/// last failure when every attempt fails.
pub fn deliver_plan(conf: &RetryConf, outcomes: &Vec<AttemptOutcome>) -> (r: DeliveryReport)
    requires
        conf.wf(),
        outcomes@.len() >= conf.max_attempts,
    ensures
        r.invocations == invocations_spec(outcomes@, conf.max_attempts as nat),
        r.delays@.len() == r.invocations - 1,
        forall|j: int| 0 <= j < r.delays@.len() ==> r.delays@[j] == delay_spec(*conf, j as nat),
        (r.outcome is Ok) <==> (outcomes@[r.invocations - 1] is Delivered),
        r.outcome is Err ==> outcomes@[r.invocations - 1] == AttemptOutcome::Failed(
            r.outcome->Err_0,
        ),
{
    let mut i: u32 = 0;
    let mut delay: u64 = conf.base_delay;
    let mut delays: Vec<u64> = Vec::new();
    proof {
        assert(outcomes@.skip(0) =~= outcomes@);
    }
    loop
        invariant
            conf.wf(),
            outcomes@.len() >= conf.max_attempts,
            0 <= i < conf.max_attempts,
            forall|j: int| 0 <= j < i ==> !((#[trigger] outcomes@[j]) is Delivered),
            invocations_spec(outcomes@, conf.max_attempts as nat) == i + invocations_spec(
                outcomes@.skip(i as int),
                (conf.max_attempts - i) as nat,
            ),
            delay == delay_spec(*conf, i as nat),
            delays@.len() == i,
            forall|j: int| 0 <= j < i ==> delays@[j] == delay_spec(*conf, j as nat),
        decreases conf.max_attempts - i,
    {
        let oc = &outcomes[i as usize];
        proof {
            assert(outcomes@.skip(i as int)[0] == outcomes@[i as int]);
        }
        match oc {
            AttemptOutcome::Delivered => {
                proof {
                    assert(invocations_spec(
                        outcomes@.skip(i as int),
                        (conf.max_attempts - i) as nat,
                    ) == 1);
                }
                return DeliveryReport { invocations: i + 1, delays, outcome: Ok(()) };
            },
            AttemptOutcome::Failed(e) => {
                if i + 1 == conf.max_attempts {
                    proof {
                        assert(invocations_spec(
                            outcomes@.skip(i as int),
                            (conf.max_attempts - i) as nat,
                        ) == 1);
                    }
                    let err = duplicate_error(e);
                    return DeliveryReport { invocations: i + 1, delays, outcome: Err(err) };
                }
                proof {
                    let s = outcomes@.skip(i as int);
                    let m = (conf.max_attempts - i) as nat;
                    assert(s.drop_first() =~= outcomes@.skip(i + 1));
                    assert(invocations_spec(s, m) == 1 + invocations_spec(
                        outcomes@.skip(i + 1),
                        (m - 1) as nat,
                    ));
                }
                delays.push(delay);
                delay = next_delay(delay, conf.multiplier_num, conf.multiplier_den);
                i += 1;
            },
        }
    }
}

} // verus!
