//! Token-bucket admission control: each client owns a bucket of tokens,
//! capped at a fixed capacity. Elapsed time is converted lazily into whole
//! refill intervals; each whole interval adds a fixed number of tokens and
//! the leftover fraction of an interval is carried, never lost or double
//! counted. A request is admitted iff a token is available, and consumes it.

use vstd::prelude::*;

use crate::client_map::ClientMap;
use crate::text::dec_str;
use crate::text::u64_to_string;
use crate::time_utils::now_seconds;
use crate::traits::IRateLimiter;
use vstd::arithmetic::div_mod::lemma_div_pos_is_pos;
use vstd::arithmetic::mul::lemma_mul_inequality;
use vstd::arithmetic::mul::lemma_mul_nonnegative;
use vstd::string::StringExecFns;

verus! {

/// Default bucket capacity for limiters built with `new`.
pub const MAX_DAILY_TOKENS: u64 = 10;

/// Default refill interval in seconds for limiters built with `new`.
pub const REFRESH_BUCKET_TIME: u64 = 10;

/// Default number of tokens added per whole refill interval.
pub const TOKENS_ADDED_ON_REFILL: u64 = 2;

/// Per-client accounting record for the token-bucket strategy.
#[derive(Clone, Copy)]
pub struct TokenBucketLimiterByIpModel {
    /// Tokens currently available, never above the bucket capacity.
    pub tokens: u64,
    /// The time up to which refills have been accounted, in seconds since
    /// the epoch.
    pub last_refill_time: u64,
}

impl TokenBucketLimiterByIpModel {
    /// A fresh, full bucket for a client first seen at time `now`.
    pub fn new(capacity: u64, now: u64) -> (r: Self)
        ensures
            r == (TokenBucketLimiterByIpModel { tokens: capacity, last_refill_time: now }),
    {
        TokenBucketLimiterByIpModel { tokens: capacity, last_refill_time: now }
    }
}

/// The record after the lazy refill at time `now`: each whole elapsed
/// interval adds `per_refill` tokens, capped at `capacity`; the refill time
/// advances by the consumed whole intervals only, carrying the remainder.
pub open spec fn tb_refilled(
    rec: TokenBucketLimiterByIpModel,
    now: u64,
    capacity: u64,
    interval: u64,
    per_refill: u64,
) -> TokenBucketLimiterByIpModel
    recommends
        interval >= 1,
{
    if now > rec.last_refill_time && now - rec.last_refill_time >= interval {
        let elapsed = now - rec.last_refill_time;
        let added = (elapsed / (interval as int)) * per_refill;
        TokenBucketLimiterByIpModel {
            tokens: if rec.tokens + added >= capacity {
                capacity
            } else {
                (rec.tokens + added) as u64
            },
            last_refill_time: (now - (elapsed % (interval as int))) as u64,
        }
    } else {
        rec
    }
}

/// One admission decision at time `now`: refill lazily, admit iff a token is
/// available, and consume it on admission.
pub open spec fn tb_step(
    rec: TokenBucketLimiterByIpModel,
    now: u64,
    capacity: u64,
    interval: u64,
    per_refill: u64,
) -> (bool, TokenBucketLimiterByIpModel)
    recommends
        interval >= 1,
{
    let refilled = tb_refilled(rec, now, capacity, interval, per_refill);
    if refilled.tokens > 0 {
        (
            true,
            TokenBucketLimiterByIpModel {
                tokens: (refilled.tokens - 1) as u64,
                last_refill_time: refilled.last_refill_time,
            },
        )
    } else {
        (false, refilled)
    }
}

/// Token bucket capping: however much idle time has elapsed, a refill never
/// lifts a bucket above its capacity, and a whole decision never leaves it
/// above the capacity.
pub proof fn lemma_token_capping(
    rec: TokenBucketLimiterByIpModel,
    now: u64,
    capacity: u64,
    interval: u64,
    per_refill: u64,
)
    requires
        interval >= 1,
        rec.tokens <= capacity,
    ensures
        tb_refilled(rec, now, capacity, interval, per_refill).tokens <= capacity,
        tb_step(rec, now, capacity, interval, per_refill).1.tokens <= capacity,
{
    if now > rec.last_refill_time && now - rec.last_refill_time >= interval {
        let elapsed = now - rec.last_refill_time;
        lemma_div_pos_is_pos(elapsed, interval as int);
        lemma_mul_nonnegative(elapsed / (interval as int), per_refill as int);
    }
}

/// The whole decision relation at one clock reading `now`: the client's
/// bucket (full on first sight) takes one step, the verdict is the step's,
/// and no other client's bucket moves.
pub open spec fn tb_decision(
    pre: Map<Seq<char>, TokenBucketLimiterByIpModel>,
    post: Map<Seq<char>, TokenBucketLimiterByIpModel>,
    ip: Seq<char>,
    admitted: bool,
    now: u64,
    capacity: u64,
    interval: u64,
    per_refill: u64,
) -> bool {
    let rec0 = if pre.dom().contains(ip) {
        pre[ip]
    } else {
        TokenBucketLimiterByIpModel { tokens: capacity, last_refill_time: now }
    };
    let step = tb_step(rec0, now, capacity, interval, per_refill);
    admitted == step.0 && post == pre.insert(ip, step.1)
}

/// The per-client state store of the token-bucket strategy.
pub struct TokenBucketLimiterModel {
    map_by_ip: ClientMap<TokenBucketLimiterByIpModel>,
}

impl View for TokenBucketLimiterModel {
    type V = Map<Seq<char>, TokenBucketLimiterByIpModel>;

    closed spec fn view(&self) -> Map<Seq<char>, TokenBucketLimiterByIpModel> {
        self.map_by_ip@
    }
}

impl TokenBucketLimiterModel {
    pub closed spec fn wf(&self) -> bool {
        self.map_by_ip.wf()
    }

    pub fn new() -> (m: Self)
        ensures
            m.wf(),
            m@ == Map::<Seq<char>, TokenBucketLimiterByIpModel>::empty(),
    {
        TokenBucketLimiterModel { map_by_ip: ClientMap::new() }
    }

    /// Tokens currently available to the client.
    pub fn get_tokens(&self, ip: &String) -> (r: u64)
        requires
            self.wf(),
            self@.dom().contains(ip@),
        ensures
            r == self@[ip@].tokens,
    {
        self.map_by_ip.get(ip).unwrap().tokens
    }

    /// Set the client's available tokens.
    pub fn set_tokens(&mut self, ip: &String, tokens: u64)
        requires
            old(self).wf(),
            old(self)@.dom().contains(ip@),
        ensures
            final(self).wf(),
            final(self)@ == old(self)@.insert(
                ip@,
                TokenBucketLimiterByIpModel {
                    tokens: tokens,
                    last_refill_time: old(self)@[ip@].last_refill_time,
                },
            ),
    {
        let mut value = *self.map_by_ip.get(ip).unwrap();
        value.tokens = tokens;
        self.map_by_ip.insert(ip, value);
    }

    /// The time up to which the client's refills have been accounted.
    pub fn get_last_refill_time(&self, ip: String) -> (r: u64)
        requires
            self.wf(),
            self@.dom().contains(ip@),
        ensures
            r == self@[ip@].last_refill_time,
    {
        self.map_by_ip.get(&ip).unwrap().last_refill_time
    }

    /// Advance the time up to which the client's refills are accounted.
    pub fn set_last_refill_time(&mut self, ip: String, last_refill_time: u64)
        requires
            old(self).wf(),
            old(self)@.dom().contains(ip@),
        ensures
            final(self).wf(),
            final(self)@ == old(self)@.insert(
                ip@,
                TokenBucketLimiterByIpModel {
                    tokens: old(self)@[ip@].tokens,
                    last_refill_time: last_refill_time,
                },
            ),
    {
        let mut value = *self.map_by_ip.get(&ip).unwrap();
        value.last_refill_time = last_refill_time;
        self.map_by_ip.insert(&ip, value);
    }

    /// Create a full bucket if this is the first sight of the key.
    fn init_if_needed(&mut self, ip: &String, capacity: u64, now: u64)
        requires
            old(self).wf(),
        ensures
            final(self).wf(),
            final(self)@ == if old(self)@.dom().contains(ip@) {
                old(self)@
            } else {
                old(self)@.insert(
                    ip@,
                    TokenBucketLimiterByIpModel { tokens: capacity, last_refill_time: now },
                )
            },
    {
        if !self.map_by_ip.contains(ip) {
            self.map_by_ip.insert(ip, TokenBucketLimiterByIpModel::new(capacity, now));
        }
    }
}

/// The token-bucket strategy, with capacity, refill interval and refill
/// amount fixed at construction.
pub struct TokenBucketLimiter {
    token_bucket_limiter_model: TokenBucketLimiterModel,
    capacity: u64,
    interval: u64,
    per_refill: u64,
}

impl View for TokenBucketLimiter {
    type V = Map<Seq<char>, TokenBucketLimiterByIpModel>;

    closed spec fn view(&self) -> Map<Seq<char>, TokenBucketLimiterByIpModel> {
        self.token_bucket_limiter_model@
    }
}

impl TokenBucketLimiter {
    /// The bucket capacity.
    pub closed spec fn spec_capacity(&self) -> u64 {
        self.capacity
    }

    /// The refill interval in seconds.
    pub closed spec fn spec_interval(&self) -> u64 {
        self.interval
    }

    /// Tokens added per whole refill interval.
    pub closed spec fn spec_per_refill(&self) -> u64 {
        self.per_refill
    }

    /// Well-formed: valid configuration, unique client records, and no
    /// bucket ever above capacity.
    pub closed spec fn wf(&self) -> bool {
        &&& self.token_bucket_limiter_model.wf()
        &&& self.capacity >= 1
        &&& self.interval >= 1
        &&& self.per_refill >= 1
        &&& forall|k: Seq<char>| #[trigger]
            self@.dom().contains(k) ==> self@[k].tokens <= self.capacity
    }

    /// A limiter whose buckets hold at most `capacity` tokens and gain
    /// `per_refill` tokens per whole `interval` seconds elapsed.
    pub fn with_config(capacity: u64, interval: u64, per_refill: u64) -> (l: Self)
        requires
            capacity >= 1,
            interval >= 1,
            per_refill >= 1,
        ensures
            l.wf(),
            l@ == Map::<Seq<char>, TokenBucketLimiterByIpModel>::empty(),
            l.spec_capacity() == capacity,
            l.spec_interval() == interval,
            l.spec_per_refill() == per_refill,
    {
        TokenBucketLimiter {
            token_bucket_limiter_model: TokenBucketLimiterModel::new(),
            capacity,
            interval,
            per_refill,
        }
    }

    /// A limiter with the default configuration.
    pub fn new() -> (l: Self)
        ensures
            l.wf(),
            l@ == Map::<Seq<char>, TokenBucketLimiterByIpModel>::empty(),
            l.spec_capacity() == MAX_DAILY_TOKENS,
            l.spec_interval() == REFRESH_BUCKET_TIME,
            l.spec_per_refill() == TOKENS_ADDED_ON_REFILL,
    {
        TokenBucketLimiter::with_config(MAX_DAILY_TOKENS, REFRESH_BUCKET_TIME, TOKENS_ADDED_ON_REFILL)
    }

    /// Refill the client's bucket for the whole intervals elapsed at `now`.
    fn refill_if_needed(&mut self, ip: &String, now: u64)
        requires
            old(self).wf(),
            old(self)@.dom().contains(ip@),
        ensures
            final(self).wf(),
            final(self).spec_capacity() == old(self).spec_capacity(),
            final(self).spec_interval() == old(self).spec_interval(),
            final(self).spec_per_refill() == old(self).spec_per_refill(),
            final(self)@ == old(self)@.insert(
                ip@,
                tb_refilled(
                    old(self)@[ip@],
                    now,
                    old(self).spec_capacity(),
                    old(self).spec_interval(),
                    old(self).spec_per_refill(),
                ),
            ),
    {
        let last_refill_time = self.token_bucket_limiter_model.get_last_refill_time(ip.clone());
        if now > last_refill_time {
            let time_since_last_refill = now - last_refill_time;
            if time_since_last_refill >= self.interval {
                let intervals = time_since_last_refill / self.interval;
                let tokens_value = self.token_bucket_limiter_model.get_tokens(ip);
                let new_tokens = match intervals.checked_mul(self.per_refill) {
                    Some(added) => match tokens_value.checked_add(added) {
                        Some(total) => if total >= self.capacity {
                            self.capacity
                        } else {
                            total
                        },
                        None => self.capacity,
                    },
                    None => {
                        proof {
                            lemma_mul_inequality(
                                u64::MAX as int + 1,
                                intervals as int * self.per_refill as int,
                                1,
                            );
                        }
                        self.capacity
                    },
                };
                self.token_bucket_limiter_model.set_tokens(ip, new_tokens);
                let refill_unused_delta = time_since_last_refill % self.interval;
                self.token_bucket_limiter_model.set_last_refill_time(
                    ip.clone(),
                    now - refill_unused_delta,
                );
                proof {
                    assert(self@ =~= old(self)@.insert(
                        ip@,
                        tb_refilled(old(self)@[ip@], now, self.capacity, self.interval, self.per_refill),
                    ));
                }
                return ;
            }
        }
        proof {
            assert(self@ =~= old(self)@.insert(
                ip@,
                tb_refilled(old(self)@[ip@], now, self.capacity, self.interval, self.per_refill),
            ));
        }
    }

    /// One admission decision for `ip` at time `now`: lazily create the
    /// client's bucket, refill it for the elapsed whole intervals, admit iff
    /// a token is available, and consume it. Decisions for one client never
    /// touch another client's bucket.
    pub fn validate_at(&mut self, ip: &String, now: u64) -> (admitted: bool)
        requires
            old(self).wf(),
        ensures
            final(self).wf(),
            final(self).spec_capacity() == old(self).spec_capacity(),
            final(self).spec_interval() == old(self).spec_interval(),
            final(self).spec_per_refill() == old(self).spec_per_refill(),
            ({
                let rec0 = if old(self)@.dom().contains(ip@) {
                    old(self)@[ip@]
                } else {
                    TokenBucketLimiterByIpModel {
                        tokens: old(self).spec_capacity(),
                        last_refill_time: now,
                    }
                };
                let step = tb_step(
                    rec0,
                    now,
                    old(self).spec_capacity(),
                    old(self).spec_interval(),
                    old(self).spec_per_refill(),
                );
                admitted == step.0 && final(self)@ == old(self)@.insert(ip@, step.1)
            }),
            forall|k: Seq<char>| #[trigger]
                old(self)@.dom().contains(k) ==> final(self)@.dom().contains(k),
            forall|k: Seq<char>|
                k != ip@ && old(self)@.dom().contains(k) ==> final(self)@[k] == old(self)@[k],
    {
        let ghost rec0 = if old(self)@.dom().contains(ip@) {
            old(self)@[ip@]
        } else {
            TokenBucketLimiterByIpModel { tokens: self.capacity, last_refill_time: now }
        };
        self.token_bucket_limiter_model.init_if_needed(ip, self.capacity, now);
        self.refill_if_needed(ip, now);
        proof {
            assert(self@ =~= old(self)@.insert(
                ip@,
                tb_refilled(rec0, now, self.capacity, self.interval, self.per_refill),
            ));
        }
        let admitted = if self.token_bucket_limiter_model.get_tokens(ip) > 0 {
            let tokens_value = self.token_bucket_limiter_model.get_tokens(ip);
            self.token_bucket_limiter_model.set_tokens(ip, tokens_value - 1);
            true
        } else {
            false
        };
        proof {
            let step = tb_step(rec0, now, self.capacity, self.interval, self.per_refill);
            assert(self@ =~= old(self)@.insert(ip@, step.1));
        }
        admitted
    }
}

/// The status line for a client of the token-bucket strategy.
pub open spec fn tb_status(ip: Seq<char>, tokens: u64) -> Seq<char> {
    "ip: "@ + ip + ", Tokens: "@ + dec_str(tokens as nat)
}

impl IRateLimiter for TokenBucketLimiter {
    open spec fn inv(&self) -> bool {
        self.wf()
    }

    open spec fn has_client(&self, key: Seq<char>) -> bool {
        self@.dom().contains(key)
    }

    /// Decide the client's request at the current wall-clock time: one
    /// token-bucket step at some clock reading, touching no other client.
    fn validate(&mut self, ip: &String) -> (admitted: bool)
        ensures
            final(self).spec_capacity() == old(self).spec_capacity(),
            final(self).spec_interval() == old(self).spec_interval(),
            final(self).spec_per_refill() == old(self).spec_per_refill(),
            exists|now: u64| #[trigger] tb_decision(
                old(self)@,
                final(self)@,
                ip@,
                admitted,
                now,
                old(self).spec_capacity(),
                old(self).spec_interval(),
                old(self).spec_per_refill(),
            ),
            forall|k: Seq<char>|
                k != ip@ && old(self)@.dom().contains(k) ==> final(self)@[k] == old(self)@[k],
    {
        let now = now_seconds();
        let admitted = self.validate_at(ip, now);
        proof {
            assert(tb_decision(
                old(self)@,
                self@,
                ip@,
                admitted,
                now,
                old(self).spec_capacity(),
                old(self).spec_interval(),
                old(self).spec_per_refill(),
            ));
        }
        admitted
    }

    /// The client's status line; a pure function of the recorded state, so
    /// repeated reads return identical text.
    fn limiter_status(&self, ip: &String) -> (status: String)
        ensures
            status@ == tb_status(ip@, self@[ip@].tokens),
    {
        let tokens_value = self.token_bucket_limiter_model.get_tokens(ip);
        let mut status = "ip: ".to_owned();
        status.append(ip.as_str());
        status.append(", Tokens: ");
        let num = u64_to_string(tokens_value);
        status.append(num.as_str());
        proof {
            assert(status@ =~= tb_status(ip@, self@[ip@].tokens));
        }
        status
    }
}

} // verus!
