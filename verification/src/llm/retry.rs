//! Retries with exponential backoff for transient failures of a completion.
use crate::llm::error::{LlmError, LlmErrorView};
use vstd::prelude::*;

verus! {

/// When a failed completion is tried again, and after which delay.
///
/// Transport failures and the API statuses 408, 429, 5xx and 529 are transient;
/// anything else is returned at once. Delays are in nanoseconds.
pub struct RetryProvider {
    /// Maximum retry attempts after the initial call.
    pub max_retries: u32,
    /// Delay before the first retry; doubles per attempt.
    pub base_delay: u64,
    /// Upper bound for a single delay, before jitter.
    pub max_delay: u64,
}

/// Whether a failure may go away by itself.
pub open spec fn transient(e: LlmErrorView) -> bool {
    match e {
        LlmErrorView::Http { timeout, connect, request, .. } => timeout || connect || request,
        LlmErrorView::Api { status, .. } => status == 408 || status == 429 || 500 <= status < 600,
        _ => false,
    }
}

/// The delay before jitter: doubled with each attempt, within the bound.
pub open spec fn plain_delay(p: RetryProvider, attempt: u32) -> int {
    let factor = if vstd::arithmetic::power2::pow2(attempt as nat) <= u32::MAX {
        vstd::arithmetic::power2::pow2(attempt as nat) as int
    } else {
        u32::MAX as int
    };
    if p.base_delay * factor <= p.max_delay {
        p.base_delay * factor
    } else {
        p.max_delay as int
    }
}

/// The delay with a jitter of up to a quarter, drawn from a clock's nanoseconds.
pub open spec fn delay(p: RetryProvider, attempt: u32, nanos: u32) -> int {
    plain_delay(p, attempt) + plain_delay(p, attempt) * ((nanos % 250) as int) / 1000
}

fn factor_of(attempt: u32) -> (r: u32)
    ensures
        r == (if vstd::arithmetic::power2::pow2(attempt as nat) <= u32::MAX {
            vstd::arithmetic::power2::pow2(attempt as nat) as int
        } else {
            u32::MAX as int
        }),
{
    let mut out: u64 = 1;
    let mut i: u32 = 0;
    proof {
        vstd::arithmetic::power2::lemma2_to64();
    }
    while i < attempt && i < 32
        invariant
            i <= attempt,
            i <= 32,
            out == vstd::arithmetic::power2::pow2(i as nat),
            out <= 0x1_0000_0000,
            vstd::arithmetic::power2::pow2(32) == 0x1_0000_0000,
        decreases 32 - i,
    {
        proof {
            vstd::arithmetic::power2::lemma_pow2_unfold((i + 1) as nat);
            if i + 1 < 32 {
                vstd::arithmetic::power2::lemma_pow2_strictly_increases((i + 1) as nat, 32);
            }
        }
        out = out * 2;
        i += 1;
    }
    if out > u32::MAX as u64 {
        proof {
            if attempt > 32 {
                vstd::arithmetic::power2::lemma_pow2_strictly_increases(32, attempt as nat);
            }
        }
        u32::MAX
    } else {
        proof {
            if i == 32 {
                assert(false);
            }
        }
        out as u32
    }
}

impl RetryProvider {
    /// Four retries, from one second up to thirty.
    pub fn new() -> (r: RetryProvider)
        ensures
            r.max_retries == 4,
            r.base_delay == 1_000_000_000,
            r.max_delay == 30_000_000_000,
    {
        RetryProvider { max_retries: 4, base_delay: 1_000_000_000, max_delay: 30_000_000_000 }
    }

    /// Sets the maximum number of retries after the initial attempt.
    pub fn with_max_retries(self, retries: u32) -> (r: RetryProvider)
        ensures
            r == (RetryProvider { max_retries: retries, ..self }),
    {
        RetryProvider { max_retries: retries, ..self }
    }

    /// Sets the delay before the first retry.
    pub fn with_base_delay(self, delay: u64) -> (r: RetryProvider)
        ensures
            r == (RetryProvider { base_delay: delay, ..self }),
    {
        RetryProvider { base_delay: delay, ..self }
    }

    /// Sets the upper bound for a single delay.
    pub fn with_max_delay(self, delay: u64) -> (r: RetryProvider)
        ensures
            r == (RetryProvider { max_delay: delay, ..self }),
    {
        RetryProvider { max_delay: delay, ..self }
    }

    /// Whether a failure may go away by itself.
    pub fn is_transient(error: &LlmError) -> (r: bool)
        ensures
            r == transient(error@),
    {
        match error {
            LlmError::Http(f) => f.timeout || f.connect || f.request,
            LlmError::Api { status, .. } => *status == 408 || *status == 429 || (500 <= *status
                && *status < 600),
            _ => false,
        }
    }

    /// The delay before the retry after `attempt` earlier ones; `nanos` are those of
    /// a clock within its second.
    pub fn backoff(&self, attempt: u32, nanos: u32) -> (r: u128)
        ensures
            r == delay(*self, attempt, nanos),
    {
        let factor = factor_of(attempt);
        let base: u128 = self.base_delay as u128;
        let cap: u128 = self.max_delay as u128;
        assert(self.base_delay * factor <= u64::MAX * u32::MAX) by (nonlinear_arith)
            requires
                self.base_delay <= u64::MAX,
                factor <= u32::MAX,
        ;
        let product: u128 = base * (factor as u128);
        let exp: u128 = if product <= cap {
            product
        } else {
            cap
        };
        let share: u128 = (nanos % 250) as u128;
        assert(exp * share <= u64::MAX * 250) by (nonlinear_arith)
            requires
                exp <= u64::MAX,
                share <= 250,
        ;
        assert(exp as int * share as int == exp * share);
        exp + exp * share / 1000
    }

    /// What follows a failure of the call after `attempt` retries: the number of
    /// retries with the next one and the delay before it, or nothing more.
    pub fn after_failure(&self, attempt: u32, error: &LlmError, nanos: u32) -> (r: Option<
        (u32, u128),
    >)
        ensures
            match r {
                Some(next) => attempt < self.max_retries && transient(error@) && next.0 == attempt
                    + 1 && next.1 == delay(*self, attempt, nanos),
                None => attempt >= self.max_retries || !transient(error@),
            },
    {
        if attempt < self.max_retries && Self::is_transient(error) {
            let wait = self.backoff(attempt, nanos);
            Some((attempt + 1, wait))
        } else {
            None
        }
    }
}

/// How many calls are made when each fails with the next of `errors`, the first of
/// them after `attempt` retries.
pub open spec fn calls_made(p: RetryProvider, attempt: int, errors: Seq<LlmErrorView>) -> nat
    decreases errors.len(),
{
    if errors.len() == 0 {
        0
    } else if attempt < p.max_retries && transient(errors[0]) {
        1 + calls_made(p, attempt + 1, errors.skip(1))
    } else {
        1
    }
}

/// However many failures there are, there is one call and at most as many retries
/// as allowed; a failure that is not transient is never followed by a call.
pub proof fn law_retries_are_bounded(p: RetryProvider, attempt: int, errors: Seq<LlmErrorView>)
    requires
        0 <= attempt <= p.max_retries,
    ensures
        calls_made(p, attempt, errors) <= p.max_retries - attempt + 1,
        errors.len() > 0 && !transient(errors[0]) ==> calls_made(p, attempt, errors) == 1,
    decreases errors.len(),
{
    if errors.len() > 0 && attempt < p.max_retries {
        law_retries_are_bounded(p, attempt + 1, errors.skip(1));
    }
}

/// A delay never exceeds the bound by more than a quarter.
pub proof fn law_delay_is_bounded(p: RetryProvider, attempt: u32, nanos: u32)
    ensures
        0 <= plain_delay(p, attempt) <= p.max_delay,
        plain_delay(p, attempt) <= delay(p, attempt, nanos) <= p.max_delay + p.max_delay / 4,
{
    let d = plain_delay(p, attempt);
    let share = (nanos % 250) as int;
    let factor = if vstd::arithmetic::power2::pow2(attempt as nat) <= u32::MAX {
        vstd::arithmetic::power2::pow2(attempt as nat) as int
    } else {
        u32::MAX as int
    };
    assert(p.base_delay * factor >= 0) by (nonlinear_arith)
        requires
            p.base_delay >= 0,
            factor >= 0,
    ;
    assert(0 <= d * share <= d * 250) by (nonlinear_arith)
        requires
            0 <= d,
            0 <= share <= 250,
    ;
    assert(d * share / 1000 <= d / 4);
    assert(d / 4 <= p.max_delay / 4);
}

} // verus!
