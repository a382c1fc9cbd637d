//! User settings (`wfmq.json`).

use vstd::prelude::*;

verus! {

pub struct Config {
    /// How many minutes an orders cache file stays valid before re-fetching.
    pub orders_cache_minutes: u64,
}

impl Default for Config {
    fn default() -> (c: Self)
        ensures
            c.orders_cache_minutes == 5,
    {
        Config { orders_cache_minutes: 5 }
    }
}

} // verus!
