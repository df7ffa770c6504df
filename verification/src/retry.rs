//! Which failures of a request are worth another try, how often, and after how
//! long a pause.
use vstd::prelude::*;

verus! {

/// The pause before the first retry, in milliseconds. Each further one doubles it.
pub const RETRY_BASE_MS: u64 = 200;

/// A request that did not bring back a usable reply.
#[derive(Debug)]
pub struct TransportError {
    /// The request ran out of time.
    pub timeout: bool,
    /// No connection was made.
    pub connect: bool,
    /// The request could not be sent.
    pub request: bool,
    /// The status of the reply, where there was one.
    pub status: Option<u16>,
    pub message: String,
}

/// Whether a status tells of a failure on the server's side.
pub open spec fn is_server_error(status: u16) -> bool {
    500 <= status <= 599
}

impl TransportError {
    /// Whether the failure may pass: a timeout, a connection or a request that
    /// failed, a reply that tells of a failure on the server's side.
    pub open spec fn transient(self) -> bool {
        self.timeout || self.connect || self.request || (self.status matches Some(s)
            && is_server_error(s))
    }

    pub fn is_transient(&self) -> (r: bool)
        ensures
            r == self.transient(),
    {
        let server_error = match self.status {
            Some(s) => 500 <= s && s <= 599,
            None => false,
        };
        self.timeout || self.connect || self.request || server_error
    }
}

/// The factor by which the pause after failure number `attempt` (from 0) exceeds
/// the first: two to that power, as far as 32 bits hold it.
pub open spec fn backoff_factor(attempt: u32) -> nat {
    if vstd::arithmetic::power2::pow2(attempt as nat) <= u32::MAX {
        vstd::arithmetic::power2::pow2(attempt as nat)
    } else {
        u32::MAX as nat
    }
}

/// The pause after failure number `attempt` (from 0), in milliseconds.
pub open spec fn backoff_ms(attempt: u32) -> nat {
    RETRY_BASE_MS as nat * backoff_factor(attempt)
}

/// The pause after failure number `attempt` (from 0), in milliseconds.
pub fn backoff(attempt: u32) -> (r: u64)
    ensures
        r == backoff_ms(attempt),
        r <= 200 * 0xffff_ffff,
{
    let mut factor: u64 = 1;
    let mut i: u32 = 0;
    proof {
        vstd::arithmetic::power2::lemma2_to64();
    }
    while i < attempt && factor <= 0xffff_ffff
        invariant
            i <= attempt,
            factor == vstd::arithmetic::power2::pow2(i as nat),
            factor <= 0x2_0000_0000,
        decreases attempt - i,
    {
        proof {
            vstd::arithmetic::power2::lemma_pow2_unfold((i + 1) as nat);
        }
        factor = factor * 2;
        i += 1;
    }
    if factor > 0xffff_ffff {
        proof {
            if i < attempt {
                vstd::arithmetic::power2::lemma_pow2_strictly_increases(i as nat, attempt as nat);
            }
        }
        RETRY_BASE_MS * 0xffff_ffff
    } else {
        RETRY_BASE_MS * factor
    }
}

/// What to do about a failure.
#[derive(Clone, Copy, Debug, PartialEq, Eq, Structural)]
pub enum RetryStep {
    /// Send the request again after so many milliseconds.
    Again { after_ms: u64 },
    /// Hand the failure on.
    GiveUp,
}

/// How far a request has got with its tries.
#[derive(Clone, Copy, Debug, PartialEq, Eq, Structural)]
pub struct Retry {
    /// The number of retries so far.
    pub attempt: u32,
    /// The number of retries that are allowed.
    pub max_retries: u32,
}

impl Retry {
    /// Before the first try.
    pub fn new(max_retries: u32) -> (r: Self)
        ensures
            r == (Retry { attempt: 0, max_retries }),
    {
        Retry { attempt: 0, max_retries }
    }

    /// Whether a failure is answered by another try.
    pub open spec fn goes_on(self, retryable: bool) -> bool {
        self.attempt < self.max_retries && retryable
    }

    /// The state after another try was decided on.
    pub open spec fn next(self) -> Retry {
        Retry { attempt: (self.attempt + 1) as u32, max_retries: self.max_retries }
    }

    /// Takes in a failure. A retryable one, while retries are left, is answered by
    /// another try after the backoff plus the jitter.
    pub fn after_failure(&mut self, retryable: bool, jitter_ms: u16) -> (r: RetryStep)
        ensures
            old(self).goes_on(retryable) ==> *final(self) == old(self).next() && r
                == (RetryStep::Again {
                after_ms: (backoff_ms(old(self).attempt) + jitter_ms) as u64,
            }),
            !old(self).goes_on(retryable) ==> *final(self) == *old(self) && r == RetryStep::GiveUp,
    {
        if self.attempt < self.max_retries && retryable {
            let after_ms: u64 = backoff(self.attempt) + jitter_ms as u64;
            self.attempt = self.attempt + 1;
            RetryStep::Again { after_ms }
        } else {
            RetryStep::GiveUp
        }
    }
}

/// How many retries follow, where the tries fail one after the other as
/// `failures` says (whether each failure is retryable).
pub open spec fn retries(state: Retry, failures: Seq<bool>) -> nat
    decreases failures.len(),
{
    if failures.len() > 0 && state.goes_on(failures[0]) {
        1 + retries(state.next(), failures.skip(1))
    } else {
        0
    }
}

/// A request is sent again at most `max_retries` times; exactly that often where
/// that many failures in a row are retryable; and never after a failure that is not.
pub proof fn law_retries_are_bounded(state: Retry, failures: Seq<bool>)
    requires
        state.attempt <= state.max_retries,
    ensures
        retries(state, failures) <= state.max_retries - state.attempt,
        (failures.len() >= state.max_retries - state.attempt && forall|i: int|
            0 <= i < state.max_retries - state.attempt ==> failures[i]) ==> retries(state, failures)
            == state.max_retries - state.attempt,
        forall|k: int|
            0 <= k < failures.len() && !#[trigger] failures[k] ==> retries(state, failures) <= k,
    decreases failures.len(),
{
    if failures.len() > 0 && state.goes_on(failures[0]) {
        let rest = failures.skip(1);
        law_retries_are_bounded(state.next(), rest);
        assert forall|k: int| 0 <= k < failures.len() && !#[trigger] failures[k] implies retries(
            state,
            failures,
        ) <= k by {
            assert(rest[k - 1] == failures[k]);
        }
        if failures.len() >= state.max_retries - state.attempt && forall|i: int|
            0 <= i < state.max_retries - state.attempt ==> failures[i] {
            assert forall|i: int| 0 <= i < state.next().max_retries - state.next().attempt implies rest[i] by {
                assert(rest[i] == failures[i + 1]);
            }
        }
    }
}

/// A failure is worth another try if and only if it is one of the connection, or an
/// error of the server; the pause doubles with each try, from 200 ms on, up to a cap.
pub proof fn law_pauses_double(e: TransportError, attempt: u32)
    ensures
        e.transient() <==> e.timeout || e.connect || e.request || (e.status matches Some(s) && s
            >= 500 && s < 600),
        backoff_ms(0) == 200,
        attempt < 31 ==> backoff_ms((attempt + 1) as u32) == 2 * backoff_ms(attempt),
        attempt >= 32 ==> backoff_ms(attempt) == 200 * 0xffff_ffff,
{
    vstd::arithmetic::power2::lemma2_to64();
    vstd::arithmetic::power2::lemma2_to64_rest();
    assert(vstd::arithmetic::power2::pow2(32) == 0x1_0000_0000);
    if attempt < 31 {
        vstd::arithmetic::power2::lemma_pow2_unfold((attempt + 1) as nat);
        if attempt < 30 {
            vstd::arithmetic::power2::lemma_pow2_strictly_increases((attempt + 1) as nat, 32);
        } else {
            vstd::arithmetic::power2::lemma_pow2_strictly_increases(31, 32);
        }
        vstd::arithmetic::power2::lemma_pow2_strictly_increases(attempt as nat, 32);
    }
    if attempt > 32 {
        vstd::arithmetic::power2::lemma_pow2_strictly_increases(32, attempt as nat);
    }
}

/// A try that fails is followed by another exactly while there are some left, and the
/// number of tries grows by one.
pub proof fn law_tries_go_on_while_some_are_left(state: Retry)
    ensures
        state.goes_on(true) <==> state.attempt < state.max_retries,
        !state.goes_on(false),
        state.goes_on(true) ==> state.next().attempt == state.attempt + 1
            && state.next().max_retries == state.max_retries,
{
}

} // verus!
