//! The retrieval policy: where a quote page lives and how failed attempts are
//! retried. The caller performs each request and reports its outcome.
use vstd::prelude::*;
use vstd::string::StringExecFns;

verus! {

/// The quote endpoint; the symbol is appended to it.
pub const QUOTE_BASE: &'static str = "https://finance.yahoo.com/quote/";

/// Attempts made before giving up.
pub const MAX_ATTEMPTS: u32 = 3;

/// Seconds to wait after a failed attempt; the wait does not grow.
pub const BACKOFF_SECS: u64 = 2;

/// Seconds a single request may take.
pub const TIMEOUT_SECS: u64 = 10;

/// The address of the quote page for a symbol.
pub fn quote_url(symbol: &str) -> (r: String)
    ensures
        r@ == QUOTE_BASE@ + symbol@,
{
    let mut url = String::from_str(QUOTE_BASE);
    url.append(symbol);
    url
}

/// What one attempt produced.
#[derive(Debug)]
pub enum FetchOutcome {
    /// The body was read.
    Received(String),
    /// The request or the body read failed.
    Failed,
}

/// What the caller does next.
#[derive(Debug)]
pub enum FetchStep {
    /// Hand this markup on to extraction.
    Deliver(String),
    /// Wait this many seconds, then attempt again.
    RetryAfter(u64),
    /// Every attempt failed.
    Exhausted,
}

/// The retry state: how many attempts have failed so far.
#[derive(Debug)]
pub struct Retry {
    pub failed: u32,
}

impl Retry {
    /// Nothing attempted yet.
    pub fn new() -> (r: Retry)
        ensures
            r.failed == 0,
    {
        Retry { failed: 0 }
    }

    /// Decides on the outcome of an attempt: deliver a body; after a failure,
    /// retry after the fixed backoff while attempts remain, else give up.
    pub fn on_outcome(&mut self, outcome: FetchOutcome) -> (step: FetchStep)
        requires
            old(self).failed < MAX_ATTEMPTS,
        ensures
            match outcome {
                FetchOutcome::Received(body) => {
                    &&& final(self).failed == old(self).failed
                    &&& step is Deliver && step->Deliver_0 == body
                },
                FetchOutcome::Failed => {
                    &&& final(self).failed == old(self).failed + 1
                    &&& if final(self).failed < MAX_ATTEMPTS {
                        step == FetchStep::RetryAfter(BACKOFF_SECS)
                    } else {
                        step == FetchStep::Exhausted
                    }
                },
            },
            step is RetryAfter ==> final(self).failed < MAX_ATTEMPTS,
    {
        match outcome {
            FetchOutcome::Received(body) => FetchStep::Deliver(body),
            FetchOutcome::Failed => {
                self.failed = self.failed + 1;
                if self.failed < MAX_ATTEMPTS {
                    FetchStep::RetryAfter(BACKOFF_SECS)
                } else {
                    FetchStep::Exhausted
                }
            },
        }
    }
}

} // verus!
