//! Waiting with exponential backoff, and a small pseudo-random number generator.

use vstd::prelude::*;

verus! {

/// The longest wait, in milliseconds: a quarter of a second.
pub const MAX_WAIT_MS: u32 = 250;

/// The wait after `wait`: twice as long, but no longer than `max` nor than a quarter second.
pub open spec fn next_wait(wait: u32, max: u32) -> u32 {
    let cap = if max < MAX_WAIT_MS { max } else { MAX_WAIT_MS };
    if wait * 2 < cap {
        (wait * 2) as u32
    } else {
        cap
    }
}

/// Exponential sleep backoff with a longest wait of a quarter second: the next wait, in
/// milliseconds, and the longest wait asked for.
pub struct Backoff(u32, u32);

impl View for Backoff {
    type V = (u32, u32);

    closed spec fn view(&self) -> (u32, u32) {
        (self.0, self.1)
    }
}

impl Backoff {
    /// A backoff starting at one millisecond, its waits growing up to `max` milliseconds, and
    /// never past a quarter second.
    pub fn new(max: u32) -> (r: Backoff)
        ensures
            r@ == (1u32, max),
    {
        Backoff(1, max)
    }

    /// How long the next wait is, in milliseconds.
    pub fn delay_ms(&self) -> (r: u64)
        ensures
            r == self@.0,
    {
        self.0 as u64
    }

    /// Move to the next wait, after waiting: the wait doubles, up to the longest wait.
    pub fn advance(&mut self)
        requires
            old(self)@.1 > 0,
        ensures
            final(self)@ == (next_wait(old(self)@.0, old(self)@.1), old(self)@.1),
    {
        let cap = if self.1 < MAX_WAIT_MS { self.1 } else { MAX_WAIT_MS };
        if self.0 < cap && self.0 * 2 < cap {
            self.0 = self.0 * 2;
        } else {
            self.0 = cap;
        }
    }

    /// Start over from one millisecond.
    pub fn reset(&mut self)
        ensures
            final(self)@ == (1u32, old(self)@.1),
    {
        self.0 = 1;
    }
}

/// What a blocking worker does next.
#[derive(Debug, Clone, Copy, PartialEq, Eq, Structural)]
pub enum WorkerAction {
    /// Run the job it took.
    Run,
    /// Sleep this many milliseconds, then look for a job again.
    Sleep(u64),
}

/// A blocking worker's decision, given whether it took a job: run it and start its backoff over,
/// or sleep for the backoff's wait, which then doubles, up to the longest wait.
pub fn worker_step(backoff: &mut Backoff, got_job: bool) -> (r: WorkerAction)
    requires
        old(backoff)@.1 > 0,
    ensures
        got_job ==> r == WorkerAction::Run && final(backoff)@ == (1u32, old(backoff)@.1),
        !got_job ==> r == WorkerAction::Sleep(old(backoff)@.0 as u64) && final(backoff)@ == (
            next_wait(old(backoff)@.0, old(backoff)@.1),
            old(backoff)@.1,
        ),
{
    if got_job {
        backoff.reset();
        WorkerAction::Run
    } else {
        let wait = backoff.delay_ms();
        backoff.advance();
        WorkerAction::Sleep(wait)
    }
}

/// One step of the xorshift generator.
pub open spec fn xorshift_step(x: u32) -> u32 {
    let a = x ^ (x << 13u32);
    let b = a ^ (a >> 7u32);
    b ^ (b << 17u32)
}

/// The next state of the xorshift generator, which is also its next number.
pub fn rand(x: u32) -> (r: u32)
    ensures
        r == xorshift_step(x),
{
    let mut x = x;
    x ^= x << 13u32;
    x ^= x >> 7u32;
    x ^= x << 17u32;
    x
}

} // verus!
