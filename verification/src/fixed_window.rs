//! Fixed-window admission control: per client, at most `limit` requests are
//! admitted within each aligned window of `window` seconds. On each decision
//! the window is rolled forward lazily; the rollover carries the remainder
//! `elapsed % window` so successive windows stay on a fixed grid and never
//! drift.

use vstd::prelude::*;

use crate::client_map::ClientMap;
use crate::text::dec_str;
use crate::text::u64_to_string;
use crate::time_utils::now_seconds;
use crate::traits::IRateLimiter;
use vstd::arithmetic::div_mod::lemma_div_pos_is_pos;
use vstd::arithmetic::div_mod::lemma_fundamental_div_mod;
use vstd::arithmetic::div_mod::lemma_mod_bound;
use vstd::arithmetic::div_mod::lemma_mod_multiples_vanish;
use vstd::arithmetic::mul::lemma_mul_nonnegative;
use vstd::string::StringExecFns;

verus! {

/// Both the default per-window admission limit and the default window length
/// in seconds for limiters built with `new`.
pub const WINDOW_SIZE: u64 = 10;

/// Per-client accounting record for the fixed-window strategy.
#[derive(Clone, Copy)]
pub struct FixedWindowLimiterByIpModel {
    /// Requests admitted in the current window.
    pub requests: u64,
    /// Start of the current window, in seconds since the epoch.
    pub last_refill_time: u64,
}

impl FixedWindowLimiterByIpModel {
    /// A fresh record for a client first seen at time `now`.
    pub fn new(now: u64) -> (r: Self)
        ensures
            r == (FixedWindowLimiterByIpModel { requests: 0, last_refill_time: now }),
    {
        FixedWindowLimiterByIpModel { requests: 0, last_refill_time: now }
    }
}

/// The record after the lazy rollover at time `now`: once at least one full
/// window has elapsed, the count clears and the window start advances by a
/// whole number of windows (the remainder is carried, keeping the grid).
pub open spec fn fw_rolled(
    rec: FixedWindowLimiterByIpModel,
    now: u64,
    window: u64,
) -> FixedWindowLimiterByIpModel
    recommends
        window >= 1,
{
    if now > rec.last_refill_time && now - rec.last_refill_time >= window {
        FixedWindowLimiterByIpModel {
            requests: 0,
            last_refill_time: (now - ((now - rec.last_refill_time) % (window as int))) as u64,
        }
    } else {
        rec
    }
}

/// One admission decision at time `now`: roll the window, admit iff the
/// rolled count is below `limit`, and count the admission.
pub open spec fn fw_step(
    rec: FixedWindowLimiterByIpModel,
    now: u64,
    limit: u64,
    window: u64,
) -> (bool, FixedWindowLimiterByIpModel)
    recommends
        window >= 1,
{
    let rolled = fw_rolled(rec, now, window);
    if rolled.requests < limit {
        (
            true,
            FixedWindowLimiterByIpModel {
                requests: (rolled.requests + 1) as u64,
                last_refill_time: rolled.last_refill_time,
            },
        )
    } else {
        (false, rolled)
    }
}

/// The fresh record a client starts from when first seen at time `now`.
pub open spec fn fw_fresh(now: u64) -> FixedWindowLimiterByIpModel {
    FixedWindowLimiterByIpModel { requests: 0, last_refill_time: now }
}

/// The whole decision relation at one clock reading `now`: the client's
/// record (fresh on first sight) takes one step, the verdict is the step's,
/// and no other client's record moves.
pub open spec fn fw_decision(
    pre: Map<Seq<char>, FixedWindowLimiterByIpModel>,
    post: Map<Seq<char>, FixedWindowLimiterByIpModel>,
    ip: Seq<char>,
    admitted: bool,
    now: u64,
    limit: u64,
    window: u64,
) -> bool {
    let rec0 = if pre.dom().contains(ip) {
        pre[ip]
    } else {
        fw_fresh(now)
    };
    let step = fw_step(rec0, now, limit, window);
    admitted == step.0 && post == pre.insert(ip, step.1)
}

/// The per-client state store of the fixed-window strategy.
pub struct FixedWindowLimiterModel {
    map_by_ip: ClientMap<FixedWindowLimiterByIpModel>,
}

impl View for FixedWindowLimiterModel {
    type V = Map<Seq<char>, FixedWindowLimiterByIpModel>;

    closed spec fn view(&self) -> Map<Seq<char>, FixedWindowLimiterByIpModel> {
        self.map_by_ip@
    }
}

impl FixedWindowLimiterModel {
    pub closed spec fn wf(&self) -> bool {
        self.map_by_ip.wf()
    }

    pub fn new() -> (m: Self)
        ensures
            m.wf(),
            m@ == Map::<Seq<char>, FixedWindowLimiterByIpModel>::empty(),
    {
        FixedWindowLimiterModel { map_by_ip: ClientMap::new() }
    }

    /// The client's whole record.
    pub fn get_value(&self, ip: &String) -> (r: &FixedWindowLimiterByIpModel)
        requires
            self.wf(),
            self@.dom().contains(ip@),
        ensures
            *r == self@[ip@],
    {
        self.map_by_ip.get(ip).unwrap()
    }

    /// Requests admitted in the client's current window.
    pub fn get_requests(&self, ip: &String) -> (r: u64)
        requires
            self.wf(),
            self@.dom().contains(ip@),
        ensures
            r == self@[ip@].requests,
    {
        self.get_value(ip).requests
    }

    /// Record one admission for the client.
    fn add_request(&mut self, ip: &String)
        requires
            old(self).wf(),
            old(self)@.dom().contains(ip@),
            old(self)@[ip@].requests < u64::MAX,
        ensures
            final(self).wf(),
            final(self)@ == old(self)@.insert(
                ip@,
                FixedWindowLimiterByIpModel {
                    requests: (old(self)@[ip@].requests + 1) as u64,
                    last_refill_time: old(self)@[ip@].last_refill_time,
                },
            ),
    {
        let mut value = *self.map_by_ip.get(ip).unwrap();
        value.requests = value.requests + 1;
        self.map_by_ip.insert(ip, value);
    }

    /// Clear the client's in-window request count.
    fn set_requests(&mut self, ip: &String, requests_to_set: u64)
        requires
            old(self).wf(),
            old(self)@.dom().contains(ip@),
        ensures
            final(self).wf(),
            final(self)@ == old(self)@.insert(
                ip@,
                FixedWindowLimiterByIpModel {
                    requests: requests_to_set,
                    last_refill_time: old(self)@[ip@].last_refill_time,
                },
            ),
    {
        let mut value = *self.map_by_ip.get(ip).unwrap();
        value.requests = requests_to_set;
        self.map_by_ip.insert(ip, value);
    }

    /// The start of the client's current window.
    pub fn get_last_refill_time(&self, ip: String) -> (r: u64)
        requires
            self.wf(),
            self@.dom().contains(ip@),
        ensures
            r == self@[ip@].last_refill_time,
    {
        self.map_by_ip.get(&ip).unwrap().last_refill_time
    }

    /// Move the start of the client's current window.
    pub fn set_last_refill_time(&mut self, ip: String, last_refill_time: u64)
        requires
            old(self).wf(),
            old(self)@.dom().contains(ip@),
        ensures
            final(self).wf(),
            final(self)@ == old(self)@.insert(
                ip@,
                FixedWindowLimiterByIpModel {
                    requests: old(self)@[ip@].requests,
                    last_refill_time: last_refill_time,
                },
            ),
    {
        let mut value = *self.map_by_ip.get(&ip).unwrap();
        value.last_refill_time = last_refill_time;
        self.map_by_ip.insert(&ip, value);
    }

    /// Create the client's record if this is the first sight of the key.
    fn init_if_needed(&mut self, ip: &String, now: u64)
        requires
            old(self).wf(),
        ensures
            final(self).wf(),
            final(self)@ == if old(self)@.dom().contains(ip@) {
                old(self)@
            } else {
                old(self)@.insert(ip@, fw_fresh(now))
            },
    {
        if !self.map_by_ip.contains(ip) {
            self.map_by_ip.insert(ip, FixedWindowLimiterByIpModel::new(now));
        }
    }
}

/// The fixed-window strategy: per-client accounting records behind a single
/// admission rule, with the limit and window length fixed at construction.
pub struct FixedWindowLimiter {
    limiter_model: FixedWindowLimiterModel,
    limit: u64,
    window: u64,
}

impl View for FixedWindowLimiter {
    type V = Map<Seq<char>, FixedWindowLimiterByIpModel>;

    closed spec fn view(&self) -> Map<Seq<char>, FixedWindowLimiterByIpModel> {
        self.limiter_model@
    }
}

impl FixedWindowLimiter {
    /// Requests admitted per window.
    pub closed spec fn spec_limit(&self) -> u64 {
        self.limit
    }

    /// Window length in seconds.
    pub closed spec fn spec_window(&self) -> u64 {
        self.window
    }

    /// Well-formed: valid configuration, unique client records, and no
    /// record's count above the limit.
    pub closed spec fn wf(&self) -> bool {
        &&& self.limiter_model.wf()
        &&& self.limit >= 1
        &&& self.window >= 1
        &&& forall|k: Seq<char>| #[trigger]
            self@.dom().contains(k) ==> self@[k].requests <= self.limit
    }

    /// A limiter admitting at most `limit` requests per aligned window of
    /// `window` seconds, per client.
    pub fn with_config(limit: u64, window: u64) -> (l: Self)
        requires
            limit >= 1,
            window >= 1,
        ensures
            l.wf(),
            l@ == Map::<Seq<char>, FixedWindowLimiterByIpModel>::empty(),
            l.spec_limit() == limit,
            l.spec_window() == window,
    {
        FixedWindowLimiter { limiter_model: FixedWindowLimiterModel::new(), limit, window }
    }

    /// A limiter with the default configuration.
    pub fn new() -> (l: Self)
        ensures
            l.wf(),
            l@ == Map::<Seq<char>, FixedWindowLimiterByIpModel>::empty(),
            l.spec_limit() == WINDOW_SIZE,
            l.spec_window() == WINDOW_SIZE,
    {
        FixedWindowLimiter::with_config(WINDOW_SIZE, WINDOW_SIZE)
    }

    /// Roll the client's window forward if at least one full window has
    /// elapsed at time `now`.
    fn move_window_if_needed(&mut self, ip: &String, now: u64)
        requires
            old(self).wf(),
            old(self)@.dom().contains(ip@),
        ensures
            final(self).wf(),
            final(self).spec_limit() == old(self).spec_limit(),
            final(self).spec_window() == old(self).spec_window(),
            final(self)@ == old(self)@.insert(
                ip@,
                fw_rolled(old(self)@[ip@], now, old(self).spec_window()),
            ),
    {
        let last_refill_time = self.limiter_model.get_last_refill_time(ip.clone());
        if now > last_refill_time {
            let time_since_last_refill = now - last_refill_time;
            if time_since_last_refill >= self.window {
                self.limiter_model.set_requests(ip, 0);
                let refill_unused_delta = time_since_last_refill % self.window;
                self.limiter_model.set_last_refill_time(ip.clone(), now - refill_unused_delta);
                proof {
                    assert(self@ =~= old(self)@.insert(
                        ip@,
                        fw_rolled(old(self)@[ip@], now, self.window),
                    ));
                }
                return ;
            }
        }
        proof {
            assert(self@ =~= old(self)@.insert(
                ip@,
                fw_rolled(old(self)@[ip@], now, self.window),
            ));
        }
    }

    /// One admission decision for `ip` at time `now`: lazily create the
    /// client's record, roll its window, admit iff the in-window count is
    /// below the limit, and count the admission. Decisions for one client
    /// never touch another client's record.
    pub fn validate_at(&mut self, ip: &String, now: u64) -> (admitted: bool)
        requires
            old(self).wf(),
        ensures
            final(self).wf(),
            final(self).spec_limit() == old(self).spec_limit(),
            final(self).spec_window() == old(self).spec_window(),
            ({
                let rec0 = if old(self)@.dom().contains(ip@) {
                    old(self)@[ip@]
                } else {
                    fw_fresh(now)
                };
                let step = fw_step(rec0, now, old(self).spec_limit(), old(self).spec_window());
                admitted == step.0 && final(self)@ == old(self)@.insert(ip@, step.1)
            }),
            forall|k: Seq<char>| #[trigger]
                old(self)@.dom().contains(k) ==> final(self)@.dom().contains(k),
            forall|k: Seq<char>|
                k != ip@ && old(self)@.dom().contains(k) ==> final(self)@[k] == old(self)@[k],
    {
        let ghost rec0 = if old(self)@.dom().contains(ip@) {
            old(self)@[ip@]
        } else {
            fw_fresh(now)
        };
        self.limiter_model.init_if_needed(ip, now);
        self.move_window_if_needed(ip, now);
        proof {
            assert(self@ =~= old(self)@.insert(ip@, fw_rolled(rec0, now, self.window)));
        }
        let admitted = if self.limiter_model.get_requests(ip) < self.limit {
            self.limiter_model.add_request(ip);
            true
        } else {
            false
        };
        proof {
            let step = fw_step(rec0, now, self.limit, self.window);
            assert(self@ =~= old(self)@.insert(ip@, step.1));
        }
        admitted
    }
}

/// One client's record after a sequence of decisions at the given call
/// times.
pub open spec fn fw_run(
    rec: FixedWindowLimiterByIpModel,
    times: Seq<u64>,
    limit: u64,
    window: u64,
) -> FixedWindowLimiterByIpModel
    decreases times.len(),
{
    if times.len() == 0 {
        rec
    } else {
        fw_run(fw_step(rec, times[0], limit, window).1, times.drop_first(), limit, window)
    }
}

/// How many of the decisions at the given call times admit.
pub open spec fn fw_admitted_count(
    rec: FixedWindowLimiterByIpModel,
    times: Seq<u64>,
    limit: u64,
    window: u64,
) -> nat
    decreases times.len(),
{
    if times.len() == 0 {
        0
    } else {
        (if fw_step(rec, times[0], limit, window).0 {
            1nat
        } else {
            0nat
        }) + fw_admitted_count(
            fw_step(rec, times[0], limit, window).1,
            times.drop_first(),
            limit,
            window,
        )
    }
}

/// Monotonic window alignment, one rollover: the window start never moves
/// backwards and stays congruent to the previous start modulo the window
/// length — the grid never drifts.
pub proof fn lemma_window_alignment(rec: FixedWindowLimiterByIpModel, now: u64, window: u64)
    requires
        window >= 1,
    ensures
        fw_rolled(rec, now, window).last_refill_time >= rec.last_refill_time,
        fw_rolled(rec, now, window).last_refill_time % window == rec.last_refill_time % window,
{
    if now > rec.last_refill_time && now - rec.last_refill_time >= window {
        let start = rec.last_refill_time as int;
        let w = window as int;
        let d = now - start;
        lemma_fundamental_div_mod(d, w);
        lemma_mod_bound(d, w);
        lemma_div_pos_is_pos(d, w);
        lemma_mul_nonnegative(w, d / w);
        let new_start = fw_rolled(rec, now, window).last_refill_time as int;
        assert(new_start == start + w * (d / w));
        lemma_mod_multiples_vanish(d / w, start, w);
    }
}

/// Monotonic window alignment, over a whole run: for any sequence of calls
/// the window start only advances, and stays on the original grid.
pub proof fn lemma_run_alignment(
    rec: FixedWindowLimiterByIpModel,
    times: Seq<u64>,
    limit: u64,
    window: u64,
)
    requires
        window >= 1,
    ensures
        fw_run(rec, times, limit, window).last_refill_time >= rec.last_refill_time,
        fw_run(rec, times, limit, window).last_refill_time % window == rec.last_refill_time
            % window,
    decreases times.len(),
{
    if times.len() > 0 {
        let step = fw_step(rec, times[0], limit, window);
        lemma_window_alignment(rec, times[0], window);
        lemma_run_alignment(step.1, times.drop_first(), limit, window);
    }
}

/// Fixed window bound: while every call time stays inside the record's
/// current aligned window, no rollover happens, every admission is counted,
/// and the window's total — admissions plus the already-counted requests —
/// never passes the limit.
pub proof fn lemma_fixed_window_bound(
    rec: FixedWindowLimiterByIpModel,
    times: Seq<u64>,
    limit: u64,
    window: u64,
)
    requires
        window >= 1,
        rec.requests <= limit,
        forall|i: int| 0 <= i < times.len() ==> times[i] < rec.last_refill_time + window,
    ensures
        fw_run(rec, times, limit, window).last_refill_time == rec.last_refill_time,
        fw_run(rec, times, limit, window).requests == rec.requests + fw_admitted_count(
            rec,
            times,
            limit,
            window,
        ),
        rec.requests + fw_admitted_count(rec, times, limit, window) <= limit,
    decreases times.len(),
{
    if times.len() > 0 {
        assert(times[0] < rec.last_refill_time + window);
        let step = fw_step(rec, times[0], limit, window);
        assert(fw_rolled(rec, times[0], window) == rec);
        assert(forall|i: int|
            0 <= i < times.drop_first().len() ==> times.drop_first()[i] == times[i + 1]);
        lemma_fixed_window_bound(step.1, times.drop_first(), limit, window);
    }
}

/// Linearized concurrency: when `n` calls for one client land inside one
/// window — the serialized order of `n` racing callers — exactly the
/// remaining budget `min(n, limit - requests)` of them is admitted and the
/// rest rejected: no double-counting, no lost updates.
pub proof fn lemma_exact_remaining_admissions(
    rec: FixedWindowLimiterByIpModel,
    times: Seq<u64>,
    limit: u64,
    window: u64,
)
    requires
        window >= 1,
        rec.requests <= limit,
        forall|i: int| 0 <= i < times.len() ==> times[i] < rec.last_refill_time + window,
    ensures
        fw_admitted_count(rec, times, limit, window) == if times.len() <= limit - rec.requests {
            times.len() as int
        } else {
            limit - rec.requests
        },
    decreases times.len(),
{
    if times.len() > 0 {
        let step = fw_step(rec, times[0], limit, window);
        assert(fw_rolled(rec, times[0], window) == rec);
        assert(forall|i: int|
            0 <= i < times.drop_first().len() ==> times.drop_first()[i] == times[i + 1]);
        lemma_exact_remaining_admissions(step.1, times.drop_first(), limit, window);
    }
}

/// The status line for a client of the fixed-window strategy.
pub open spec fn fw_status(ip: Seq<char>, requests: u64) -> Seq<char> {
    "ip: "@ + ip + ",requests: "@ + dec_str(requests as nat)
}

impl IRateLimiter for FixedWindowLimiter {
    open spec fn inv(&self) -> bool {
        self.wf()
    }

    open spec fn has_client(&self, key: Seq<char>) -> bool {
        self@.dom().contains(key)
    }

    /// Decide the client's request at the current wall-clock time: one
    /// fixed-window step at some clock reading, touching no other client.
    fn validate(&mut self, ip: &String) -> (admitted: bool)
        ensures
            final(self).spec_limit() == old(self).spec_limit(),
            final(self).spec_window() == old(self).spec_window(),
            exists|now: u64| #[trigger] fw_decision(
                old(self)@,
                final(self)@,
                ip@,
                admitted,
                now,
                old(self).spec_limit(),
                old(self).spec_window(),
            ),
            forall|k: Seq<char>|
                k != ip@ && old(self)@.dom().contains(k) ==> final(self)@[k] == old(self)@[k],
    {
        let now = now_seconds();
        let admitted = self.validate_at(ip, now);
        proof {
            assert(fw_decision(
                old(self)@,
                self@,
                ip@,
                admitted,
                now,
                old(self).spec_limit(),
                old(self).spec_window(),
            ));
        }
        admitted
    }

    /// The client's status line; a pure function of the recorded state, so
    /// repeated reads return identical text.
    fn limiter_status(&self, ip: &String) -> (status: String)
        ensures
            status@ == fw_status(ip@, self@[ip@].requests),
    {
        let requests_value = self.limiter_model.get_requests(ip);
        let mut status = "ip: ".to_owned();
        status.append(ip.as_str());
        status.append(",requests: ");
        let num = u64_to_string(requests_value);
        status.append(num.as_str());
        proof {
            assert(status@ =~= fw_status(ip@, self@[ip@].requests));
        }
        status
    }
}

} // verus!
