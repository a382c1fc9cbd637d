//! Request addresses and the rate limit shared by all API requests.
//!
//! Times are nanoseconds since a fixed moment chosen by the caller.

use vstd::prelude::*;

use crate::text::joined;

verus! {

/// 3 requests per second → one request every 334 ms.
pub const RATE_INTERVAL_NANOS: u64 = 334_000_000;

pub open spec fn base_url() -> Seq<char> {
    "https://api.warframe.market"@
}

/// The full address of an API path.
pub fn request_url(path: &str) -> (url: String)
    ensures
        url@ == base_url() + path@,
{
    joined("https://api.warframe.market", path)
}

/// Dropsources live on v1: `/v1/items/{slug}/dropsources`.
pub fn dropsources_endpoint(slug: &str) -> (p: String)
    ensures
        p@ == "/v1/items/"@ + slug@ + "/dropsources"@,
{
    let mut p = joined("/v1/items/", slug);
    p.append("/dropsources");
    p
}

/// `/v2/orders/item/{slug}`
pub fn orders_endpoint(slug: &str) -> (p: String)
    ensures
        p@ == "/v2/orders/item/"@ + slug@,
{
    joined("/v2/orders/item/", slug)
}

/// The shared slot: the earliest moment the next request may be sent.
pub struct RateLimiter {
    pub next_at: u64,
}

impl RateLimiter {
    /// The first request may go at once.
    pub fn new(now: u64) -> (r: Self)
        ensures
            r.next_at == now,
    {
        RateLimiter { next_at: now }
    }

    /// For a request that takes the slot at `now`: the moment to sleep until,
    /// or `None` when it may go at once.
    pub fn wait_until(&self, now: u64) -> (r: Option<u64>)
        ensures
            r == (if self.next_at > now {
                Some(self.next_at)
            } else {
                None
            }),
    {
        if self.next_at > now {
            Some(self.next_at)
        } else {
            None
        }
    }

    /// Reserves the next slot, one interval after the moment `released_at`
    /// at which the current request was let go.
    pub fn reserve(&mut self, released_at: u64)
        requires
            released_at + RATE_INTERVAL_NANOS <= u64::MAX,
        ensures
            final(self).next_at == released_at + RATE_INTERVAL_NANOS,
    {
        self.next_at = released_at + RATE_INTERVAL_NANOS;
    }
}

/// The slot in force when request `k` of a run arrives: the start for the
/// first, else one interval after the release of the one before.
pub open spec fn slot_before(start: u64, released: Seq<u64>, k: int) -> int {
    if k == 0 {
        start as int
    } else {
        released[k - 1] + RATE_INTERVAL_NANOS
    }
}

/// Every request of the run was let go no earlier than it arrived, and no
/// earlier than the slot that `wait_until` named when it had to wait.
pub open spec fn run_follows_limiter(start: u64, arrived: Seq<u64>, released: Seq<u64>) -> bool {
    &&& arrived.len() == released.len()
    &&& forall|k: int|
        0 <= k < released.len() ==> {
            &&& #[trigger] released[k] >= arrived[k]
            &&& slot_before(start, released, k) > arrived[k] ==> released[k] >= slot_before(
                start,
                released,
                k,
            )
        }
}

/// The limit is never exceeded: in a run of requests that all go through the
/// shared slot, any two requests `i < j` are let go at least `j - i`
/// intervals apart.
pub proof fn lemma_requests_spaced(start: u64, arrived: Seq<u64>, released: Seq<u64>, i: int, j: int)
    requires
        run_follows_limiter(start, arrived, released),
        0 <= i <= j < released.len(),
    ensures
        released[j] >= released[i] + (j - i) * RATE_INTERVAL_NANOS,
    decreases j - i,
{
    if i < j {
        lemma_requests_spaced(start, arrived, released, i, j - 1);
        assert(released[j] >= arrived[j]);
        assert(released[j] >= slot_before(start, released, j));
        assert((j - i) * RATE_INTERVAL_NANOS == (j - 1 - i) * RATE_INTERVAL_NANOS + RATE_INTERVAL_NANOS) by (nonlinear_arith);
    }
}

} // verus!
