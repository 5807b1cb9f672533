//! The admission-control capability contract: the uniform two-method
//! interface every strategy implements, so the request-handling layer is
//! strategy-agnostic. A strategy is chosen once at construction and decides
//! one request per `validate` call.

use vstd::prelude::*;

verus! {

/// The uniform admission-control contract.
///
/// A strategy keeps one accounting record per client key, created lazily on
/// first sight and never destroyed; `validate` decides one request and
/// mutates only that client's record, `limiter_status` describes the
/// client's recorded state without mutating anything. Every key is accepted;
/// the empty key scopes its own record, acting as the reserved anonymous
/// client.
pub trait IRateLimiter {
    /// The strategy's internal invariant.
    spec fn inv(&self) -> bool;

    /// Whether this client has an accounting record.
    spec fn has_client(&self, key: Seq<char>) -> bool;

    /// Decide the client's request at the current wall-clock time: true
    /// admits, false rejects. The client's record exists afterwards, and no
    /// record is ever lost.
    fn validate(&mut self, ip: &String) -> (admitted: bool)
        requires
            old(self).inv(),
        ensures
            final(self).inv(),
            final(self).has_client(ip@),
            forall|k: Seq<char>| #[trigger]
                old(self).has_client(k) ==> final(self).has_client(k),
    ;

    /// A diagnostic snapshot of the client's recorded state. Reading takes
    /// `&self`: repeated calls without an intervening `validate` return
    /// identical text.
    fn limiter_status(&self, ip: &String) -> (status: String)
        requires
            self.inv(),
            self.has_client(ip@),
    ;
}

} // verus!
