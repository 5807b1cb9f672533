//! Client-scoped request admission control.
//!
//! Given a stream of incoming requests identified by a client key, each
//! strategy decides per request whether to admit or reject it, keeping
//! independent per-client accounting state and advancing time-based state
//! lazily at decision time (window rollover, token refill) rather than via a
//! background clock.
//!
//! Each `validate` call is one atomic step of the client's accounting
//! timeline: its contract pins the verdict and the new record as a function
//! of the old record and the clock reading, and says that no other client's
//! record moves. A caller that serializes calls on a shared instance (for
//! example behind a mutex, as the surrounding request-handling layer does)
//! therefore gets the linearized per-key behaviour the proofs in each
//! strategy module describe: within a window exactly the remaining budget is
//! admitted, however many callers race for it.

pub mod client_map;
pub mod fixed_window;
pub mod leaking_bucket;
pub mod leaky_bucket;
pub mod sliding_window;
pub mod token_bucket;
pub mod text;
pub mod time_utils;
pub mod traits;
