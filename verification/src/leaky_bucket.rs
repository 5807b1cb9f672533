//! Leaky-bucket admission control over the `leaky_bucket` crate: each client
//! owns a capacity-bounded bucket that drains at a constant rate, and
//! admitting a request consumes one unit of it. This non-blocking variant is
//! the bounded-wait form of the strategy with a zero timeout: when no
//! capacity is immediately available the request is rejected; a caller that
//! wants the suspending form waits and retries around it.

use vstd::prelude::*;

use crate::client_map::ClientMap;
use crate::text::dec_str;
use crate::text::u64_to_string;
use crate::traits::IRateLimiter;
use vstd::string::StringExecFns;

verus! {

/// Default number of units initially available in a fresh bucket.
pub const LEAKY_INITIAL: u64 = 2;

/// Default bucket capacity.
pub const LEAKY_MAX: u64 = 10;

/// Default drain interval in milliseconds: how often one refill of capacity
/// becomes available again.
pub const LEAKY_INTERVAL_MS: u64 = 10000;

#[verifier::external_type_specification]
#[verifier::external_body]
pub struct ExRateLimiter(leaky_bucket::RateLimiter);

/// The capacity a bucket was built with: the most units it can hold.
pub uninterp spec fn bucket_max(l: leaky_bucket::RateLimiter) -> int;

/// Relies on leaky_bucket's `Builder`: `build` caps the configured capacity
/// at `isize::MAX` (so below that bound the built bucket's capacity is
/// exactly `max`) and starts the balance at `min(initial, max)`; `interval`
/// panics on a zero interval, so that input is left out.
#[verifier::external_body]
pub(crate) fn build_rate_limiter(initial: u64, max: u64, interval_ms: u64) -> (r:
    leaky_bucket::RateLimiter)
    requires
        interval_ms >= 1,
        max <= isize::MAX as u64,
        initial <= usize::MAX as u64,
    ensures
        bucket_max(r) == max as int,
{
    leaky_bucket::RateLimiter::builder()
        .initial(initial as usize)
        .max(max as usize)
        .interval(std::time::Duration::from_millis(interval_ms))
        .build()
}

/// Relies on leaky_bucket's `RateLimiter::balance`: the units acquirable
/// right now without waiting; every write in the crate keeps the balance at
/// or below the capacity.
#[verifier::external_body]
pub(crate) fn bucket_balance(l: &leaky_bucket::RateLimiter) -> (r: u64)
    ensures
        r as int <= bucket_max(*l),
{
    l.balance() as u64
}

/// Relies on leaky_bucket's `RateLimiter::try_acquire`: true iff one unit
/// was acquired without waiting. The outcome depends on the elapsed
/// wall-clock time and on pending fair-queue waiters, so nothing is promised
/// of it.
#[verifier::external_body]
pub(crate) fn bucket_try_acquire_one(l: &leaky_bucket::RateLimiter) -> bool {
    l.try_acquire(1)
}

/// Per-client record for the leaky-bucket strategy: the client's own bucket.
pub struct LeakyBucketLimiterByIpModel {
    /// The bucket whose units the client's admissions consume.
    pub limiter_for_ip: leaky_bucket::RateLimiter,
}

impl LeakyBucketLimiterByIpModel {
    /// A fresh bucket, with the default configuration, for a newly seen
    /// client.
    pub fn new() -> (r: Self)
        ensures
            bucket_max(r.limiter_for_ip) == LEAKY_MAX as int,
    {
        LeakyBucketLimiterByIpModel {
            limiter_for_ip: build_rate_limiter(LEAKY_INITIAL, LEAKY_MAX, LEAKY_INTERVAL_MS),
        }
    }
}

/// The per-client state store of the leaky-bucket strategy.
pub struct LeakyBucketLimiterModel {
    map_by_ip: ClientMap<LeakyBucketLimiterByIpModel>,
}

impl View for LeakyBucketLimiterModel {
    type V = Map<Seq<char>, LeakyBucketLimiterByIpModel>;

    closed spec fn view(&self) -> Map<Seq<char>, LeakyBucketLimiterByIpModel> {
        self.map_by_ip@
    }
}

impl LeakyBucketLimiterModel {
    /// Well-formed: unique client records, each holding a bucket of the
    /// default capacity.
    pub closed spec fn wf(&self) -> bool {
        &&& self.map_by_ip.wf()
        &&& forall|k: Seq<char>| #[trigger]
            self@.dom().contains(k) ==> bucket_max(self@[k].limiter_for_ip) == LEAKY_MAX as int
    }

    pub fn new() -> (m: Self)
        ensures
            m.wf(),
            m@ == Map::<Seq<char>, LeakyBucketLimiterByIpModel>::empty(),
    {
        LeakyBucketLimiterModel { map_by_ip: ClientMap::new() }
    }

    /// The client's whole record.
    pub fn get_value(&self, ip: &String) -> (r: &LeakyBucketLimiterByIpModel)
        requires
            self.wf(),
            self@.dom().contains(ip@),
        ensures
            *r == self@[ip@],
    {
        self.map_by_ip.get(ip).unwrap()
    }

    /// Create the client's bucket if this is the first sight of the key.
    fn init_if_needed(&mut self, ip: &String)
        requires
            old(self).wf(),
        ensures
            final(self).wf(),
            final(self)@.dom() == old(self)@.dom().insert(ip@),
            old(self)@.dom().contains(ip@) ==> final(self)@ == old(self)@,
            forall|k: Seq<char>|
                k != ip@ && old(self)@.dom().contains(k) ==> final(self)@[k] == old(self)@[k],
    {
        if !self.map_by_ip.contains(ip) {
            self.map_by_ip.insert(ip, LeakyBucketLimiterByIpModel::new());
            proof {
                assert(self@.dom() =~= old(self)@.dom().insert(ip@));
            }
        } else {
            proof {
                assert(self@.dom() =~= old(self)@.dom().insert(ip@));
            }
        }
    }
}

/// The leaky-bucket strategy: one bucket per client, admission by immediate
/// acquisition of one unit.
pub struct LeakyBucketLimiter {
    limiter_model: LeakyBucketLimiterModel,
}

impl View for LeakyBucketLimiter {
    type V = Map<Seq<char>, LeakyBucketLimiterByIpModel>;

    closed spec fn view(&self) -> Map<Seq<char>, LeakyBucketLimiterByIpModel> {
        self.limiter_model@
    }
}

impl LeakyBucketLimiter {
    pub closed spec fn wf(&self) -> bool {
        self.limiter_model.wf()
    }

    pub fn new() -> (l: Self)
        ensures
            l.wf(),
            l@ == Map::<Seq<char>, LeakyBucketLimiterByIpModel>::empty(),
    {
        LeakyBucketLimiter { limiter_model: LeakyBucketLimiterModel::new() }
    }

    /// Create the client's bucket if this is the first sight of the key.
    fn init_ip_in_map_if_needed(&mut self, ip: &String)
        requires
            old(self).wf(),
        ensures
            final(self).wf(),
            final(self)@.dom() == old(self)@.dom().insert(ip@),
            old(self)@.dom().contains(ip@) ==> final(self)@ == old(self)@,
            forall|k: Seq<char>|
                k != ip@ && old(self)@.dom().contains(k) ==> final(self)@[k] == old(self)@[k],
    {
        self.limiter_model.init_if_needed(ip);
    }
}

/// The status line for a client of the leaky-bucket strategy.
pub open spec fn lb_status(ip: Seq<char>, balance: u64) -> Seq<char> {
    "ip: "@ + ip + ", balance: "@ + dec_str(balance as nat)
}

impl IRateLimiter for LeakyBucketLimiter {
    open spec fn inv(&self) -> bool {
        self.wf()
    }

    open spec fn has_client(&self, key: Seq<char>) -> bool {
        self@.dom().contains(key)
    }

    /// Decide the client's request: true iff one unit of the client's bucket
    /// could be acquired without waiting. The verdict depends on the
    /// wall-clock drain of the bucket, so nothing more is promised of it;
    /// no other client's record moves, and a known client's record does not
    /// move at all.
    fn validate(&mut self, ip: &String) -> (admitted: bool)
        ensures
            final(self)@.dom() == old(self)@.dom().insert(ip@),
            old(self)@.dom().contains(ip@) ==> final(self)@ == old(self)@,
            forall|k: Seq<char>|
                k != ip@ && old(self)@.dom().contains(k) ==> final(self)@[k] == old(self)@[k],
    {
        self.init_ip_in_map_if_needed(ip);
        let record = self.limiter_model.get_value(ip);
        bucket_try_acquire_one(&record.limiter_for_ip)
    }

    /// The client's status line: the bucket's current balance, which never
    /// reads above the bucket's capacity.
    fn limiter_status(&self, ip: &String) -> (status: String)
        ensures
            exists|balance: u64|
                balance as int <= bucket_max(self@[ip@].limiter_for_ip) && status@ == #[trigger]
                lb_status(ip@, balance),
    {
        let record = self.limiter_model.get_value(ip);
        let balance = bucket_balance(&record.limiter_for_ip);
        let mut status = "ip: ".to_owned();
        status.append(ip.as_str());
        status.append(", balance: ");
        let num = u64_to_string(balance);
        status.append(num.as_str());
        proof {
            assert(status@ =~= lb_status(ip@, balance));
        }
        status
    }
}

} // verus!
