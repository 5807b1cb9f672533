//! Sliding-window admission control: a weighted two-window approximation of
//! a continuously sliding limit. Per client the current and the immediately
//! previous window counts are kept; the in-window estimate weighs the
//! previous count by the unexpired fraction of the current window:
//!
//! `estimate = previous * (window - elapsed) / window + current`
//!
//! with `elapsed` clamped to `[0, window]`. A request is admitted iff the
//! estimate is below the limit. The same grid-aligned lazy rollover as the
//! fixed window applies; on rollover the previous count becomes the current
//! count, or zero when more than one full window has elapsed with no
//! activity.

use vstd::prelude::*;

use crate::client_map::ClientMap;
use crate::text::dec_str;
use crate::text::u64_to_string;
use crate::time_utils::now_seconds;
use crate::traits::IRateLimiter;
use vstd::string::StringExecFns;
use vstd::arithmetic::div_mod::lemma_div_is_ordered;
use vstd::arithmetic::div_mod::lemma_div_multiples_vanish;
use vstd::arithmetic::div_mod::lemma_div_pos_is_pos;
use vstd::arithmetic::div_mod::lemma_fundamental_div_mod;
use vstd::arithmetic::div_mod::lemma_mod_bound;
use vstd::arithmetic::div_mod::lemma_mod_multiples_vanish;
use vstd::arithmetic::mul::lemma_mul_inequality;
use vstd::arithmetic::mul::lemma_mul_is_commutative;
use vstd::arithmetic::mul::lemma_mul_nonnegative;

verus! {

/// Both the default per-window admission limit and the default window length
/// in seconds for limiters built with `new`.
pub const WINDOW_SIZE: u64 = 10;

/// Per-client accounting record for the sliding-window strategy.
#[derive(Clone, Copy)]
pub struct SlidingWindowLimiterByIpModel {
    /// Requests admitted in the current window.
    pub current_requests: u64,
    /// Requests admitted in the immediately previous window.
    pub last_requests: u64,
    /// Start of the current window, in seconds since the epoch.
    pub last_refill_time: u64,
}

impl SlidingWindowLimiterByIpModel {
    /// A fresh record for a client first seen at time `now`.
    pub fn new(now: u64) -> (r: Self)
        ensures
            r == (SlidingWindowLimiterByIpModel {
                current_requests: 0,
                last_requests: 0,
                last_refill_time: now,
            }),
    {
        SlidingWindowLimiterByIpModel {
            current_requests: 0,
            last_requests: 0,
            last_refill_time: now,
        }
    }
}

/// The fresh record a client starts from when first seen at time `now`.
pub open spec fn sw_fresh(now: u64) -> SlidingWindowLimiterByIpModel {
    SlidingWindowLimiterByIpModel { current_requests: 0, last_requests: 0, last_refill_time: now }
}

/// The whole decision relation at one clock reading `now`: the client's
/// record (fresh on first sight) takes one step, the verdict is the step's,
/// and no other client's record moves.
pub open spec fn sw_decision(
    pre: Map<Seq<char>, SlidingWindowLimiterByIpModel>,
    post: Map<Seq<char>, SlidingWindowLimiterByIpModel>,
    ip: Seq<char>,
    admitted: bool,
    now: u64,
    limit: u64,
    window: u64,
) -> bool {
    let rec0 = if pre.dom().contains(ip) {
        pre[ip]
    } else {
        sw_fresh(now)
    };
    let step = sw_step(rec0, now, limit, window);
    admitted == step.0 && post == pre.insert(ip, step.1)
}

/// The record after the lazy rollover at time `now`: once at least one full
/// window has elapsed the current count becomes the previous count (or zero
/// when more than one full window passed with no activity), the current
/// count clears, and the window start advances onto the fixed grid.
pub open spec fn sw_rolled(
    rec: SlidingWindowLimiterByIpModel,
    now: u64,
    window: u64,
) -> SlidingWindowLimiterByIpModel
    recommends
        window >= 1,
{
    if now > rec.last_refill_time && now - rec.last_refill_time >= window {
        SlidingWindowLimiterByIpModel {
            current_requests: 0,
            last_requests: if now - rec.last_refill_time >= 2 * (window as int) {
                0
            } else {
                rec.current_requests
            },
            last_refill_time: (now - ((now - rec.last_refill_time) % (window as int))) as u64,
        }
    } else {
        rec
    }
}

/// The elapsed share of the record's current window at time `now`, clamped
/// to `[0, window]`.
pub open spec fn sw_elapsed(rec: SlidingWindowLimiterByIpModel, now: u64, window: u64) -> int {
    if now <= rec.last_refill_time {
        0
    } else if now - rec.last_refill_time >= window {
        window as int
    } else {
        now - rec.last_refill_time
    }
}

/// The weighted two-window estimate of the requests inside the sliding
/// window ending at `now`.
pub open spec fn sw_estimate(rec: SlidingWindowLimiterByIpModel, now: u64, window: u64) -> int
    recommends
        window >= 1,
{
    rec.current_requests + (rec.last_requests * (window - sw_elapsed(rec, now, window))) / (
    window as int)
}

/// One admission decision at time `now`: roll the window, admit iff the
/// estimate is below `limit`, and count the admission in the current window.
pub open spec fn sw_step(
    rec: SlidingWindowLimiterByIpModel,
    now: u64,
    limit: u64,
    window: u64,
) -> (bool, SlidingWindowLimiterByIpModel)
    recommends
        window >= 1,
{
    let rolled = sw_rolled(rec, now, window);
    if sw_estimate(rolled, now, window) < limit {
        (
            true,
            SlidingWindowLimiterByIpModel {
                current_requests: (rolled.current_requests + 1) as u64,
                last_requests: rolled.last_requests,
                last_refill_time: rolled.last_refill_time,
            },
        )
    } else {
        (false, rolled)
    }
}

/// The estimate never undercounts the current window and never overcounts
/// the two windows it weighs.
pub proof fn lemma_estimate_bounds(rec: SlidingWindowLimiterByIpModel, now: u64, window: u64)
    requires
        window >= 1,
    ensures
        rec.current_requests <= sw_estimate(rec, now, window),
        sw_estimate(rec, now, window) <= rec.current_requests + rec.last_requests,
{
    let e = sw_elapsed(rec, now, window);
    assert(0 <= e <= window);
    let w = window as int;
    let q = (rec.last_requests * (w - e)) / w;
    lemma_mul_inequality(w - e, w, rec.last_requests as int);
    lemma_mul_is_commutative(rec.last_requests as int, w - e);
    lemma_mul_is_commutative(rec.last_requests as int, w);
    lemma_div_is_ordered(rec.last_requests * (w - e), rec.last_requests * w, w);
    lemma_div_multiples_vanish(rec.last_requests as int, w);
    assert(q <= rec.last_requests);
    assert(rec.last_requests * (w - e) >= 0) by {
        lemma_mul_inequality(0, rec.last_requests as int, w - e);
    }
    assert(q >= 0) by {
        lemma_div_is_ordered(0, rec.last_requests * (w - e), w);
    }
}

/// One client's record after a sequence of decisions at the given call
/// times.
pub open spec fn sw_run(
    rec: SlidingWindowLimiterByIpModel,
    times: Seq<u64>,
    limit: u64,
    window: u64,
) -> SlidingWindowLimiterByIpModel
    decreases times.len(),
{
    if times.len() == 0 {
        rec
    } else {
        sw_run(sw_step(rec, times[0], limit, window).1, times.drop_first(), limit, window)
    }
}

/// How many of the decisions at the given call times admit.
pub open spec fn sw_admitted_count(
    rec: SlidingWindowLimiterByIpModel,
    times: Seq<u64>,
    limit: u64,
    window: u64,
) -> nat
    decreases times.len(),
{
    if times.len() == 0 {
        0
    } else {
        (if sw_step(rec, times[0], limit, window).0 {
            1nat
        } else {
            0nat
        }) + sw_admitted_count(
            sw_step(rec, times[0], limit, window).1,
            times.drop_first(),
            limit,
            window,
        )
    }
}

/// Monotonic window alignment, one rollover: the window start never moves
/// backwards and stays congruent to the previous start modulo the window
/// length — the grid never drifts.
pub proof fn lemma_window_alignment(rec: SlidingWindowLimiterByIpModel, now: u64, window: u64)
    requires
        window >= 1,
    ensures
        sw_rolled(rec, now, window).last_refill_time >= rec.last_refill_time,
        sw_rolled(rec, now, window).last_refill_time % window == rec.last_refill_time % window,
{
    if now > rec.last_refill_time && now - rec.last_refill_time >= window {
        let start = rec.last_refill_time as int;
        let w = window as int;
        let d = now - start;
        lemma_fundamental_div_mod(d, w);
        lemma_mod_bound(d, w);
        lemma_div_pos_is_pos(d, w);
        lemma_mul_nonnegative(w, d / w);
        let new_start = sw_rolled(rec, now, window).last_refill_time as int;
        assert(new_start == start + w * (d / w));
        lemma_mod_multiples_vanish(d / w, start, w);
    }
}

/// Monotonic window alignment, over a whole run: for any sequence of calls
/// the window start only advances, and stays on the original grid.
pub proof fn lemma_run_alignment(
    rec: SlidingWindowLimiterByIpModel,
    times: Seq<u64>,
    limit: u64,
    window: u64,
)
    requires
        window >= 1,
    ensures
        sw_run(rec, times, limit, window).last_refill_time >= rec.last_refill_time,
        sw_run(rec, times, limit, window).last_refill_time % window == rec.last_refill_time
            % window,
    decreases times.len(),
{
    if times.len() > 0 {
        let step = sw_step(rec, times[0], limit, window);
        lemma_window_alignment(rec, times[0], window);
        lemma_run_alignment(step.1, times.drop_first(), limit, window);
    }
}

/// A run inside one window for a record with an empty previous window: no
/// rollover happens, the estimate equals the current count, and exactly the
/// remaining budget `min(n, limit - current)` is admitted.
pub proof fn lemma_same_window_burst(
    rec: SlidingWindowLimiterByIpModel,
    times: Seq<u64>,
    limit: u64,
    window: u64,
)
    requires
        window >= 1,
        rec.last_requests == 0,
        rec.current_requests <= limit,
        forall|i: int| 0 <= i < times.len() ==> times[i] < rec.last_refill_time + window,
    ensures
        sw_run(rec, times, limit, window).last_refill_time == rec.last_refill_time,
        sw_run(rec, times, limit, window).last_requests == 0,
        sw_run(rec, times, limit, window).current_requests == rec.current_requests
            + sw_admitted_count(rec, times, limit, window),
        sw_admitted_count(rec, times, limit, window) == if times.len() <= limit
            - rec.current_requests {
            times.len() as int
        } else {
            limit - rec.current_requests
        },
    decreases times.len(),
{
    if times.len() > 0 {
        assert(times[0] < rec.last_refill_time + window);
        let rolled = sw_rolled(rec, times[0], window);
        assert(rolled == rec);
        lemma_estimate_bounds(rec, times[0], window);
        assert(sw_estimate(rec, times[0], window) == rec.current_requests);
        let step = sw_step(rec, times[0], limit, window);
        assert(forall|i: int|
            0 <= i < times.drop_first().len() ==> times.drop_first()[i] == times[i + 1]);
        lemma_same_window_burst(step.1, times.drop_first(), limit, window);
    }
}

/// Sliding window smoothing: a client first seen at time `t` has a burst of
/// `limit` requests at `t` fully admitted; a second burst of `limit`
/// requests halfway through the window, at `t + window / 2`, is rejected in
/// full — the weighted estimate already sits at the limit.
pub proof fn lemma_sliding_window_smoothing(t: u64, limit: u64, window: u64)
    requires
        limit >= 1,
        window >= 1,
        t + window <= u64::MAX,
    ensures
        ({
            let first_burst = Seq::new(limit as nat, |i: int| t);
            let second_burst = Seq::new(limit as nat, |i: int| (t + window / 2) as u64);
            let rec1 = sw_run(sw_fresh(t), first_burst, limit, window);
            &&& sw_admitted_count(sw_fresh(t), first_burst, limit, window) == limit
            &&& sw_admitted_count(rec1, second_burst, limit, window) == 0
        }),
{
    let first_burst = Seq::new(limit as nat, |i: int| t);
    let second_time = (t + window / 2) as u64;
    let second_burst = Seq::new(limit as nat, |i: int| second_time);
    lemma_same_window_burst(sw_fresh(t), first_burst, limit, window);
    let rec1 = sw_run(sw_fresh(t), first_burst, limit, window);
    assert(rec1.current_requests == limit);
    assert(window / 2 < window);
    assert(second_time == t + window / 2);
    assert(forall|i: int|
        0 <= i < second_burst.len() ==> second_burst[i] < rec1.last_refill_time + window);
    lemma_same_window_burst(rec1, second_burst, limit, window);
}

/// The per-client state store of the sliding-window strategy.
pub struct SlidingWindowLimiterModel {
    map_by_ip: ClientMap<SlidingWindowLimiterByIpModel>,
}

impl View for SlidingWindowLimiterModel {
    type V = Map<Seq<char>, SlidingWindowLimiterByIpModel>;

    closed spec fn view(&self) -> Map<Seq<char>, SlidingWindowLimiterByIpModel> {
        self.map_by_ip@
    }
}

impl SlidingWindowLimiterModel {
    pub closed spec fn wf(&self) -> bool {
        self.map_by_ip.wf()
    }

    pub fn new() -> (m: Self)
        ensures
            m.wf(),
            m@ == Map::<Seq<char>, SlidingWindowLimiterByIpModel>::empty(),
    {
        SlidingWindowLimiterModel { map_by_ip: ClientMap::new() }
    }

    /// The client's whole record.
    pub fn get_value(&self, ip: &String) -> (r: &SlidingWindowLimiterByIpModel)
        requires
            self.wf(),
            self@.dom().contains(ip@),
        ensures
            *r == self@[ip@],
    {
        self.map_by_ip.get(ip).unwrap()
    }

    /// Count one admission in the client's current window.
    fn add_request(&mut self, ip: &String)
        requires
            old(self).wf(),
            old(self)@.dom().contains(ip@),
            old(self)@[ip@].current_requests < u64::MAX,
        ensures
            final(self).wf(),
            final(self)@ == old(self)@.insert(
                ip@,
                SlidingWindowLimiterByIpModel {
                    current_requests: (old(self)@[ip@].current_requests + 1) as u64,
                    last_requests: old(self)@[ip@].last_requests,
                    last_refill_time: old(self)@[ip@].last_refill_time,
                },
            ),
    {
        let mut value = *self.map_by_ip.get(ip).unwrap();
        value.current_requests = value.current_requests + 1;
        self.map_by_ip.insert(ip, value);
    }

    /// Set the client's current-window request count.
    fn set_requests(&mut self, ip: &String, requests_to_set: u64)
        requires
            old(self).wf(),
            old(self)@.dom().contains(ip@),
        ensures
            final(self).wf(),
            final(self)@ == old(self)@.insert(
                ip@,
                SlidingWindowLimiterByIpModel {
                    current_requests: requests_to_set,
                    last_requests: old(self)@[ip@].last_requests,
                    last_refill_time: old(self)@[ip@].last_refill_time,
                },
            ),
    {
        let mut value = *self.map_by_ip.get(ip).unwrap();
        value.current_requests = requests_to_set;
        self.map_by_ip.insert(ip, value);
    }

    /// Set the client's previous-window request count.
    fn set_last_requests(&mut self, ip: &String, last_requests_to_set: u64)
        requires
            old(self).wf(),
            old(self)@.dom().contains(ip@),
        ensures
            final(self).wf(),
            final(self)@ == old(self)@.insert(
                ip@,
                SlidingWindowLimiterByIpModel {
                    current_requests: old(self)@[ip@].current_requests,
                    last_requests: last_requests_to_set,
                    last_refill_time: old(self)@[ip@].last_refill_time,
                },
            ),
    {
        let mut value = *self.map_by_ip.get(ip).unwrap();
        value.last_requests = last_requests_to_set;
        self.map_by_ip.insert(ip, value);
    }

    /// Move the start of the client's current window.
    pub fn set_last_refill_time(&mut self, ip: String, last_refill_time: u64)
        requires
            old(self).wf(),
            old(self)@.dom().contains(ip@),
        ensures
            final(self).wf(),
            final(self)@ == old(self)@.insert(
                ip@,
                SlidingWindowLimiterByIpModel {
                    current_requests: old(self)@[ip@].current_requests,
                    last_requests: old(self)@[ip@].last_requests,
                    last_refill_time: last_refill_time,
                },
            ),
    {
        let mut value = *self.map_by_ip.get(&ip).unwrap();
        value.last_refill_time = last_refill_time;
        self.map_by_ip.insert(&ip, value);
    }

    /// Create the client's record if this is the first sight of the key.
    fn init_if_needed(&mut self, ip: &String, now: u64)
        requires
            old(self).wf(),
        ensures
            final(self).wf(),
            final(self)@ == if old(self)@.dom().contains(ip@) {
                old(self)@
            } else {
                old(self)@.insert(ip@, sw_fresh(now))
            },
    {
        if !self.map_by_ip.contains(ip) {
            self.map_by_ip.insert(ip, SlidingWindowLimiterByIpModel::new(now));
        }
    }
}

/// The sliding-window strategy, with the limit and window length fixed at
/// construction.
pub struct SlidingWindowLimiter {
    limiter_model: SlidingWindowLimiterModel,
    limit: u64,
    window: u64,
}

impl View for SlidingWindowLimiter {
    type V = Map<Seq<char>, SlidingWindowLimiterByIpModel>;

    closed spec fn view(&self) -> Map<Seq<char>, SlidingWindowLimiterByIpModel> {
        self.limiter_model@
    }
}

impl SlidingWindowLimiter {
    /// Requests admitted per sliding window.
    pub closed spec fn spec_limit(&self) -> u64 {
        self.limit
    }

    /// Window length in seconds.
    pub closed spec fn spec_window(&self) -> u64 {
        self.window
    }

    /// Well-formed: valid configuration, unique client records, and neither
    /// window count of any record above the limit. The configuration keeps
    /// `limit * (window + 1)` within the machine word so the weighted
    /// estimate is computable.
    pub closed spec fn wf(&self) -> bool {
        &&& self.limiter_model.wf()
        &&& self.limit >= 1
        &&& self.window >= 1
        &&& self.limit * (self.window + 1) <= u64::MAX
        &&& forall|k: Seq<char>| #[trigger]
            self@.dom().contains(k) ==> self@[k].current_requests <= self.limit
                && self@[k].last_requests <= self.limit
    }

    /// A limiter admitting at most `limit` estimated requests per sliding
    /// window of `window` seconds, per client. The product bound is what the
    /// machine word forces on the weighted estimate.
    pub fn with_config(limit: u64, window: u64) -> (l: Self)
        requires
            limit >= 1,
            window >= 1,
            limit * (window + 1) <= u64::MAX,
        ensures
            l.wf(),
            l@ == Map::<Seq<char>, SlidingWindowLimiterByIpModel>::empty(),
            l.spec_limit() == limit,
            l.spec_window() == window,
    {
        SlidingWindowLimiter { limiter_model: SlidingWindowLimiterModel::new(), limit, window }
    }

    /// A limiter with the default configuration.
    pub fn new() -> (l: Self)
        ensures
            l.wf(),
            l@ == Map::<Seq<char>, SlidingWindowLimiterByIpModel>::empty(),
            l.spec_limit() == WINDOW_SIZE,
            l.spec_window() == WINDOW_SIZE,
    {
        SlidingWindowLimiter::with_config(WINDOW_SIZE, WINDOW_SIZE)
    }

    /// The weighted estimate of the client's requests inside the sliding
    /// window ending at `now`. Recomputed on every call, never persisted.
    pub fn calculate_requests_in_sliding_window(&self, ip: &String, now: u64) -> (r: u64)
        requires
            self.wf(),
            self@.dom().contains(ip@),
        ensures
            r == sw_estimate(self@[ip@], now, self.spec_window()),
    {
        let rec = *self.limiter_model.get_value(ip);
        let elapsed = if now <= rec.last_refill_time {
            0
        } else if now - rec.last_refill_time >= self.window {
            self.window
        } else {
            now - rec.last_refill_time
        };
        let weight = self.window - elapsed;
        proof {
            lemma_mul_inequality(rec.last_requests as int, self.limit as int, weight as int);
            lemma_mul_inequality(weight as int, self.window as int, self.limit as int);
            lemma_mul_is_commutative(self.limit as int, weight as int);
            lemma_mul_inequality(
                self.window as int,
                self.window as int + 1,
                self.limit as int,
            );
            lemma_mul_is_commutative(self.limit as int, self.window as int);
            lemma_mul_is_commutative(self.limit as int, self.window as int + 1);
        }
        let scaled = rec.last_requests * weight;
        let q = scaled / self.window;
        proof {
            lemma_div_is_ordered(scaled as int, self.limit * self.window, self.window as int);
            lemma_mul_is_commutative(self.limit as int, self.window as int);
            lemma_div_multiples_vanish(self.limit as int, self.window as int);
            assert(q <= self.limit);
            assert(rec.current_requests <= self.limit);
            assert(self.limit * 2 <= self.limit * (self.window + 1)) by {
                lemma_mul_inequality(2, self.window as int + 1, self.limit as int);
                lemma_mul_is_commutative(self.limit as int, 2);
                lemma_mul_is_commutative(self.limit as int, self.window as int + 1);
            }
        }
        rec.current_requests + q
    }

    /// Roll the client's window forward if at least one full window has
    /// elapsed at time `now`.
    fn move_window_if_needed(&mut self, ip: &String, now: u64)
        requires
            old(self).wf(),
            old(self)@.dom().contains(ip@),
        ensures
            final(self).wf(),
            final(self).spec_limit() == old(self).spec_limit(),
            final(self).spec_window() == old(self).spec_window(),
            final(self)@ == old(self)@.insert(
                ip@,
                sw_rolled(old(self)@[ip@], now, old(self).spec_window()),
            ),
    {
        let last_refill_time = self.limiter_model.get_value(ip).last_refill_time;
        if now > last_refill_time {
            let time_since_last_refill = now - last_refill_time;
            if time_since_last_refill >= self.window {
                let current_requests = self.limiter_model.get_value(ip).current_requests;
                let carried = if time_since_last_refill - self.window >= self.window {
                    0
                } else {
                    current_requests
                };
                self.limiter_model.set_last_requests(ip, carried);
                self.limiter_model.set_requests(ip, 0);
                let refill_unused_delta = time_since_last_refill % self.window;
                self.limiter_model.set_last_refill_time(ip.clone(), now - refill_unused_delta);
                proof {
                    assert(self@ =~= old(self)@.insert(
                        ip@,
                        sw_rolled(old(self)@[ip@], now, self.window),
                    ));
                }
                return ;
            }
        }
        proof {
            assert(self@ =~= old(self)@.insert(
                ip@,
                sw_rolled(old(self)@[ip@], now, self.window),
            ));
        }
    }

    /// One admission decision for `ip` at time `now`: lazily create the
    /// client's record, roll its window, admit iff the weighted estimate is
    /// below the limit, and count the admission. Decisions for one client
    /// never touch another client's record.
    pub fn validate_at(&mut self, ip: &String, now: u64) -> (admitted: bool)
        requires
            old(self).wf(),
        ensures
            final(self).wf(),
            final(self).spec_limit() == old(self).spec_limit(),
            final(self).spec_window() == old(self).spec_window(),
            ({
                let rec0 = if old(self)@.dom().contains(ip@) {
                    old(self)@[ip@]
                } else {
                    sw_fresh(now)
                };
                let step = sw_step(rec0, now, old(self).spec_limit(), old(self).spec_window());
                admitted == step.0 && final(self)@ == old(self)@.insert(ip@, step.1)
            }),
            forall|k: Seq<char>| #[trigger]
                old(self)@.dom().contains(k) ==> final(self)@.dom().contains(k),
            forall|k: Seq<char>|
                k != ip@ && old(self)@.dom().contains(k) ==> final(self)@[k] == old(self)@[k],
    {
        let ghost rec0 = if old(self)@.dom().contains(ip@) {
            old(self)@[ip@]
        } else {
            sw_fresh(now)
        };
        self.limiter_model.init_if_needed(ip, now);
        self.move_window_if_needed(ip, now);
        proof {
            assert(self@ =~= old(self)@.insert(ip@, sw_rolled(rec0, now, self.window)));
        }
        let requests_in_sliding_window = self.calculate_requests_in_sliding_window(ip, now);
        let admitted = if requests_in_sliding_window < self.limit {
            proof {
                lemma_estimate_bounds(self@[ip@], now, self.window);
            }
            self.limiter_model.add_request(ip);
            true
        } else {
            false
        };
        proof {
            let step = sw_step(rec0, now, self.limit, self.window);
            assert(self@ =~= old(self)@.insert(ip@, step.1));
        }
        admitted
    }
}

/// The status line for a client of the sliding-window strategy.
pub open spec fn sw_status(
    ip: Seq<char>,
    requests: u64,
    last_requests: u64,
    window_start: u64,
) -> Seq<char> {
    "ip: "@ + ip + ", Requests: "@ + dec_str(requests as nat) + ", Last Requests: "@ + dec_str(
        last_requests as nat,
    ) + ", Window Start Time: "@ + dec_str(window_start as nat)
}

impl IRateLimiter for SlidingWindowLimiter {
    open spec fn inv(&self) -> bool {
        self.wf()
    }

    open spec fn has_client(&self, key: Seq<char>) -> bool {
        self@.dom().contains(key)
    }

    /// Decide the client's request at the current wall-clock time: one
    /// sliding-window step at some clock reading, touching no other client.
    fn validate(&mut self, ip: &String) -> (admitted: bool)
        ensures
            final(self).spec_limit() == old(self).spec_limit(),
            final(self).spec_window() == old(self).spec_window(),
            exists|now: u64| #[trigger] sw_decision(
                old(self)@,
                final(self)@,
                ip@,
                admitted,
                now,
                old(self).spec_limit(),
                old(self).spec_window(),
            ),
            forall|k: Seq<char>|
                k != ip@ && old(self)@.dom().contains(k) ==> final(self)@[k] == old(self)@[k],
    {
        let now = now_seconds();
        let admitted = self.validate_at(ip, now);
        proof {
            assert(sw_decision(
                old(self)@,
                self@,
                ip@,
                admitted,
                now,
                old(self).spec_limit(),
                old(self).spec_window(),
            ));
        }
        admitted
    }

    /// The client's status line; a pure function of the recorded state, so
    /// repeated reads return identical text.
    fn limiter_status(&self, ip: &String) -> (status: String)
        ensures
            status@ == sw_status(
                ip@,
                self@[ip@].current_requests,
                self@[ip@].last_requests,
                self@[ip@].last_refill_time,
            ),
    {
        let requests_value = self.limiter_model.get_value(ip).current_requests;
        let last_requests_value = self.limiter_model.get_value(ip).last_requests;
        let window_start_time = self.limiter_model.get_value(ip).last_refill_time;
        let mut status = "ip: ".to_owned();
        status.append(ip.as_str());
        status.append(", Requests: ");
        let num = u64_to_string(requests_value);
        status.append(num.as_str());
        status.append(", Last Requests: ");
        let last_num = u64_to_string(last_requests_value);
        status.append(last_num.as_str());
        status.append(", Window Start Time: ");
        let start_num = u64_to_string(window_start_time);
        status.append(start_num.as_str());
        proof {
            assert(status@ =~= sw_status(
                ip@,
                self@[ip@].current_requests,
                self@[ip@].last_requests,
                self@[ip@].last_refill_time,
            ));
        }
        status
    }
}

} // verus!
