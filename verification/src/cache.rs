//! Where the local JSON cache keeps each kind of data, and when a cached
//! file may be used.
//!
//! * Static data  (items, locations, missions, dropsources) — no TTL: a
//!   cached file is used whenever it can be read.
//! * Dynamic data (orders) — TTL-based: a cached file is used only while its
//!   age is under a configured number of minutes.

use vstd::prelude::*;

use crate::text::joined;

verus! {

pub fn items_path() -> (p: String)
    ensures
        p@ == "data/items.json"@,
{
    "data/items.json".to_owned()
}

pub fn locations_path() -> (p: String)
    ensures
        p@ == "data/locations.json"@,
{
    "data/locations.json".to_owned()
}

pub fn missions_path() -> (p: String)
    ensures
        p@ == "data/missions.json"@,
{
    "data/missions.json".to_owned()
}

pub fn ducats_per_relic_path() -> (p: String)
    ensures
        p@ == "data/ducats_per_relic.json"@,
{
    "data/ducats_per_relic.json".to_owned()
}

/// `data/dropsources/{slug}.json`
pub fn dropsources_path(slug: &str) -> (p: String)
    ensures
        p@ == "data/dropsources/"@ + slug@ + ".json"@,
{
    let mut p = joined("data/dropsources/", slug);
    p.append(".json");
    p
}

/// `data/orders/{slug}.json`
pub fn orders_path(slug: &str) -> (p: String)
    ensures
        p@ == "data/orders/"@ + slug@ + ".json"@,
{
    let mut p = joined("data/orders/", slug);
    p.append(".json");
    p
}

/// A file of age `age_secs` (`None` when its age cannot be told: it is
/// missing, or its time stamp is unreadable or in the future) is fresh when
/// it is younger than `max_age_minutes`.
pub open spec fn fresh(age_secs: Option<u64>, max_age_minutes: u64) -> bool {
    match age_secs {
        Some(a) => a < max_age_minutes * 60,
        None => false,
    }
}

/// A missing file is never fresh; a fresh file stays fresh when it is
/// younger or the limit is longer; a file just under the limit is fresh and
/// one at the limit is not.
pub proof fn lemma_freshness(age: u64, younger: u64, max_age_minutes: u64, longer: u64)
    ensures
        !fresh(None, max_age_minutes),
        fresh(Some(age), max_age_minutes) && younger <= age ==> fresh(Some(younger), max_age_minutes),
        fresh(Some(age), max_age_minutes) && max_age_minutes <= longer ==> fresh(Some(age), longer),
        0 < max_age_minutes && max_age_minutes * 60 <= u64::MAX ==> fresh(
            Some((max_age_minutes * 60 - 1) as u64),
            max_age_minutes,
        ) && !fresh(Some((max_age_minutes * 60) as u64), max_age_minutes),
        !fresh(Some(age), 0),
{
}

/// Returns `true` if the file exists AND its last-modified time is within
/// `max_age_minutes` of now.
pub fn is_fresh(age_secs: Option<u64>, max_age_minutes: u64) -> (b: bool)
    ensures
        b == fresh(age_secs, max_age_minutes),
        age_secs is None ==> !b,
        b ==> age_secs.unwrap() < max_age_minutes * 60,
        age_secs is Some && age_secs.unwrap() < max_age_minutes * 60 ==> b,
{
    match age_secs {
        Some(a) => (a as u128) < (max_age_minutes as u128) * 60,
        None => false,
    }
}

/// Whether a cached file is to be read before asking the API: always for
/// data without a time-to-live (`ttl_minutes == None`), else only while the
/// file is fresh.
pub fn consult_cache(ttl_minutes: Option<u64>, age_secs: Option<u64>) -> (b: bool)
    ensures
        b == match ttl_minutes {
            None => true,
            Some(m) => fresh(age_secs, m),
        },
        ttl_minutes is None ==> b,
        ttl_minutes is Some && age_secs is None ==> !b,
        ttl_minutes is Some && b ==> age_secs.unwrap() < ttl_minutes.unwrap() * 60,
        ttl_minutes is Some && age_secs is Some && age_secs.unwrap() < ttl_minutes.unwrap() * 60 ==> b,
{
    match ttl_minutes {
        None => true,
        Some(m) => is_fresh(age_secs, m),
    }
}

} // verus!
