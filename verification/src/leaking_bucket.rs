//! The global leaky-bucket variant: one bucket shared by every request,
//! with no client key — the special case of the per-client strategy with a
//! single implicit client. The process-wide bucket is owned by the limiter
//! instance instead of living in global state.

use vstd::prelude::*;

use crate::leaky_bucket::bucket_balance;
use crate::leaky_bucket::bucket_max;
use crate::leaky_bucket::bucket_try_acquire_one;
use crate::leaky_bucket::build_rate_limiter;
use crate::leaky_bucket::LEAKY_INITIAL;
use crate::leaky_bucket::LEAKY_INTERVAL_MS;
use crate::leaky_bucket::LEAKY_MAX;
use crate::text::dec_str;
use crate::text::u64_to_string;
use vstd::string::StringExecFns;

verus! {

/// The global status line: the shared bucket's balance.
pub open spec fn global_bucket_status(balance: u64) -> Seq<char> {
    "Requests: "@ + dec_str(balance as nat)
}

/// A single shared leaky bucket, without per-client scoping.
pub struct LeakyBucketRateLimiter {
    limiter: leaky_bucket::RateLimiter,
}

impl LeakyBucketRateLimiter {
    /// Well-formed: the bucket has the default capacity.
    pub closed spec fn wf(&self) -> bool {
        bucket_max(self.limiter) == LEAKY_MAX as int
    }

    pub fn new() -> (l: Self)
        ensures
            l.wf(),
    {
        LeakyBucketRateLimiter { limiter: build_rate_limiter(LEAKY_INITIAL, LEAKY_MAX, LEAKY_INTERVAL_MS) }
    }

    /// Decide one request: true iff one unit of the shared bucket could be
    /// acquired without waiting. The verdict depends on the wall-clock drain
    /// of the bucket, so nothing more is promised of it.
    pub fn validate(&self) -> bool {
        bucket_try_acquire_one(&self.limiter)
    }

    /// The shared bucket's status line: its current balance, which never
    /// reads above the bucket's capacity.
    pub fn limiter_status(&self) -> (status: String)
        requires
            self.wf(),
        ensures
            exists|balance: u64|
                balance <= LEAKY_MAX && status@ == #[trigger] global_bucket_status(balance),
    {
        let balance = bucket_balance(&self.limiter);
        let mut status = "Requests: ".to_owned();
        let num = u64_to_string(balance);
        status.append(num.as_str());
        proof {
            assert(status@ =~= global_bucket_status(balance));
        }
        status
    }
}

} // verus!
