//! The decisions of the accepting side of the server: how long to wait
//! before accepting again after a failed accept, and what to do with each
//! message a connection delivers.
use vstd::prelude::*;
use vstd::arithmetic::power2::pow2;

use crate::message::{Message, SubmitJob};

verus! {

/// The most connections served at once.
pub const MAX_CONNECTIONS: usize = 64;

/// The most jobs waiting in the channel to the worker pool.
pub const BOUNDED_QUEUE_LIMIT: usize = 64;

/// The longest wait, in seconds, after which one more failed accept ends
/// the accept loop.
pub const MAX_BACKOFF_SECS: u64 = 64;

/// What the accept loop does after a failed accept.
#[derive(Debug, Clone, Copy, PartialEq, Eq, Structural)]
pub enum AcceptStep {
    /// Sleep this many seconds, then accept again.
    Retry { sleep_secs: u64 },
    /// Give up and report the error.
    GiveUp,
}

/// The step taken after a failed accept when the current wait is `delay` seconds.
pub open spec fn accept_step(delay: u64) -> AcceptStep {
    if delay > MAX_BACKOFF_SECS {
        AcceptStep::GiveUp
    } else {
        AcceptStep::Retry { sleep_secs: delay }
    }
}

/// The wait after a failed accept when the current wait is `delay` seconds:
/// it doubles after each retry.
pub open spec fn next_delay(delay: u64) -> u64 {
    if delay > MAX_BACKOFF_SECS {
        delay
    } else {
        (2 * delay) as u64
    }
}

/// The wait, in seconds, after `k` failed accepts.
pub open spec fn delay_after(k: nat) -> u64
    decreases k,
{
    if k == 0 {
        1
    } else {
        next_delay(delay_after((k - 1) as nat))
    }
}

/// The exponential backoff of one accept loop.
pub struct AcceptBackoff {
    backoff: u64,
}

impl AcceptBackoff {
    #[verifier::type_invariant]
    spec fn inv(&self) -> bool {
        1 <= self.backoff <= 2 * MAX_BACKOFF_SECS
    }

    /// The current wait, in seconds.
    pub closed spec fn delay(&self) -> u64 {
        self.backoff
    }

    /// A backoff that waits one second after the first failure.
    pub fn new() -> (b: Self)
        ensures
            b.delay() == delay_after(0),
    {
        AcceptBackoff { backoff: 1 }
    }

    /// What to do after a failed accept: retry after the current wait and
    /// double it, or give up once the wait has passed `MAX_BACKOFF_SECS`.
    pub fn on_accept_error(&mut self) -> (step: AcceptStep)
        ensures
            step == accept_step(old(self).delay()),
            final(self).delay() == next_delay(old(self).delay()),
    {
        proof {
            use_type_invariant(&*self);
        }
        if self.backoff > MAX_BACKOFF_SECS {
            return AcceptStep::GiveUp;
        }
        let sleep_secs = self.backoff;
        self.backoff = self.backoff * 2;
        AcceptStep::Retry { sleep_secs }
    }
}

/// The accept loop retries seven times, after 1, 2, 4, ..., 64 seconds (the
/// `k`-th failure, counting from 0, waits 2^k seconds), and gives up at the
/// eighth failure and every one after it.
pub proof fn lemma_accept_retry_schedule(k: nat)
    ensures
        k < 7 ==> delay_after(k) == pow2(k) && accept_step(delay_after(k)) == (AcceptStep::Retry {
            sleep_secs: pow2(k) as u64,
        }),
        k >= 7 ==> delay_after(k) == 128 && accept_step(delay_after(k)) == AcceptStep::GiveUp,
    decreases k,
{
    vstd::arithmetic::power2::lemma2_to64();
    if k > 0 {
        lemma_accept_retry_schedule((k - 1) as nat);
    }
}

/// Where a message that a connection delivers goes.
#[derive(Debug)]
pub enum Route {
    /// Nothing to do for this message.
    Ignore,
    /// Queue this job for the worker pool.
    Enqueue(SubmitJob),
}

/// Pings and pongs need no work; a job submission is queued for the workers.
pub fn route_message(message: Message) -> (route: Route)
    ensures
        match message {
            Message::SubmitJob(job) => route == Route::Enqueue(job),
            _ => route == Route::Ignore,
        },
{
    match message {
        Message::Ping => Route::Ignore,
        Message::Pong => Route::Ignore,
        Message::SubmitJob(submit_job) => Route::Enqueue(submit_job),
    }
}

} // verus!
