//! Ducat-farming analysis built entirely from cached data.
//!
//! Step 1 — relic contents
//!   For each prime part, its dropsources list which relics contain it and at
//!   what rates (intact / exceptional / flawless / radiant).  Gathering the
//!   (ducats, rates) shares of all prime parts per relic gives what the
//!   expected-ducat value of opening each relic is summed from.
//!
//! Step 2 — mission terms
//!   For each relic, its dropsources list which missions drop it and at what
//!   rate.  Gathering (relic drop rate, relic intact value) per
//!   (location, mission, rotation) gives what the expected ducats per run of
//!   each combination is summed from.
//!
//! Drop rates and values are of an opaque type `R`; the sums are taken by
//! the caller.

use vstd::prelude::*;

use crate::assoc::{seq_values, AssocMap, KeyEq};
use crate::models::{opt_str_view, DropSource, ItemShort, Location, Mission, RelicRates};
use crate::seqs::{
    deref_all, ends_with, lemma_concat_starts_ends, lemma_select_complete, lemma_select_sound, select,
    starts_with,
};
use crate::text::{to_upper, upper_case};

verus! {

// ---------------------------------------------------------------------------
// Grouping
// ---------------------------------------------------------------------------

/// The items of `s` gathered by key, each key's items in their order in `s`.
pub open spec fn group_by_key<KV, T>(s: Seq<(KV, T)>) -> Map<KV, Seq<T>>
    decreases s.len(),
{
    if s.len() == 0 {
        Map::empty()
    } else {
        let g = group_by_key(s.drop_last());
        let k = s.last().0;
        g.insert(
            k,
            (if g.contains_key(k) {
                g[k]
            } else {
                Seq::<T>::empty()
            }).push(s.last().1),
        )
    }
}

/// The number of items of `s` with key `k`.
pub open spec fn count_key<KV, T>(s: Seq<(KV, T)>, k: KV) -> nat
    decreases s.len(),
{
    if s.len() == 0 {
        0
    } else {
        count_key(s.drop_last(), k) + (if s.last().0 == k {
            1nat
        } else {
            0nat
        })
    }
}

/// Gathering by key loses nothing and invents nothing: each key holds exactly
/// as many items as `s` has for it, and only keys of `s` are present.
pub proof fn lemma_group_counts<KV, T>(s: Seq<(KV, T)>, k: KV)
    ensures
        group_by_key(s).contains_key(k) <==> count_key(s, k) > 0,
        group_by_key(s).contains_key(k) ==> group_by_key(s)[k].len() == count_key(s, k),
    decreases s.len(),
{
    if s.len() > 0 {
        lemma_group_counts(s.drop_last(), k);
    }
}

/// Every item gathered under a key is an item of `s` with that key.
pub proof fn lemma_group_members<KV, T>(s: Seq<(KV, T)>, k: KV, i: int)
    requires
        group_by_key(s).contains_key(k),
        0 <= i < group_by_key(s)[k].len(),
    ensures
        exists|j: int| 0 <= j < s.len() && #[trigger] s[j].0 == k && s[j].1 == group_by_key(s)[k][i],
    decreases s.len(),
{
    let g = group_by_key(s.drop_last());
    if s.last().0 == k && i == group_by_key(s)[k].len() - 1 {
        assert(s[s.len() - 1].0 == k);
    } else {
        lemma_group_members(s.drop_last(), k, i);
        let j = choose|j: int| 0 <= j < s.drop_last().len() && #[trigger] s.drop_last()[j].0 == k
            && s.drop_last()[j].1 == g[k][i];
        assert(s[j] == s.drop_last()[j]);
    }
}

proof fn lemma_push_assoc<T>(a: Seq<T>, b: Seq<T>, x: T)
    ensures
        (a + b).push(x) == a + b.push(x),
{
    assert((a + b).push(x) =~= a + b.push(x));
}

// ---------------------------------------------------------------------------
// Step 1 — relic contents
// ---------------------------------------------------------------------------

/// One prime part's share in a relic: its ducat value and its drop chances.
pub struct PartShare<R> {
    pub ducats: u32,
    pub rates: RelicRates<R>,
}

impl<R: Copy> Clone for PartShare<R> {
    fn clone(&self) -> (r: Self)
        ensures
            r == *self,
    {
        *self
    }
}

impl<R: Copy> Copy for PartShare<R> {}

/// The (relic id, share) pairs that the drop sources of one part with
/// `ducats` ducats give: one per source of type "relic" that names a relic
/// and has rates, in source order.
pub open spec fn relic_shares_of_sources<R>(ducats: u32, sources: Seq<DropSource<R>>) -> Seq<
    (Seq<char>, PartShare<R>),
>
    decreases sources.len(),
{
    if sources.len() == 0 {
        Seq::empty()
    } else {
        let prev = relic_shares_of_sources(ducats, sources.drop_last());
        let s = sources.last();
        if s.source_type@ == "relic"@ && s.relic is Some && s.rates is Some {
            prev.push((s.relic.unwrap()@, PartShare { ducats, rates: s.rates.unwrap() }))
        } else {
            prev
        }
    }
}

/// The shares of one part: none unless it is worth ducats and its drop
/// sources are known.
pub open spec fn relic_shares_of_part<R>(
    part: ItemShort,
    sources_by_slug: Map<Seq<char>, Vec<DropSource<R>>>,
) -> Seq<(Seq<char>, PartShare<R>)> {
    if part.ducats is Some && part.ducats.unwrap() > 0 && sources_by_slug.contains_key(part.slug@) {
        relic_shares_of_sources(part.ducats.unwrap(), sources_by_slug[part.slug@]@)
    } else {
        Seq::empty()
    }
}

/// The shares of all parts, part by part.
pub open spec fn relic_shares<R>(
    parts: Seq<&ItemShort>,
    sources_by_slug: Map<Seq<char>, Vec<DropSource<R>>>,
) -> Seq<(Seq<char>, PartShare<R>)>
    decreases parts.len(),
{
    if parts.len() == 0 {
        Seq::empty()
    } else {
        relic_shares(parts.drop_last(), sources_by_slug) + relic_shares_of_part(
            *parts.last(),
            sources_by_slug,
        )
    }
}

proof fn lemma_source_shares_positive<R>(ducats: u32, sources: Seq<DropSource<R>>)
    requires
        ducats > 0,
    ensures
        forall|j: int| 0 <= j < relic_shares_of_sources(ducats, sources).len()
            ==> (#[trigger] relic_shares_of_sources(ducats, sources)[j]).1.ducats > 0,
    decreases sources.len(),
{
    if sources.len() > 0 {
        lemma_source_shares_positive(ducats, sources.drop_last());
        let prev = relic_shares_of_sources(ducats, sources.drop_last());
        let cur = relic_shares_of_sources(ducats, sources);
        assert forall|j: int| 0 <= j < cur.len() implies (#[trigger] cur[j]).1.ducats > 0 by {
            if j < prev.len() {
                assert(cur[j] == prev[j]);
            }
        }
    }
}

proof fn lemma_relic_shares_positive<R>(
    parts: Seq<&ItemShort>,
    sources_by_slug: Map<Seq<char>, Vec<DropSource<R>>>,
)
    ensures
        forall|j: int| 0 <= j < relic_shares(parts, sources_by_slug).len()
            ==> (#[trigger] relic_shares(parts, sources_by_slug)[j]).1.ducats > 0,
    decreases parts.len(),
{
    if parts.len() > 0 {
        lemma_relic_shares_positive(parts.drop_last(), sources_by_slug);
        let part = *parts.last();
        if part.ducats is Some && part.ducats.unwrap() > 0 && sources_by_slug.contains_key(part.slug@) {
            lemma_source_shares_positive(part.ducats.unwrap(), sources_by_slug[part.slug@]@);
        }
        let a = relic_shares(parts.drop_last(), sources_by_slug);
        let b = relic_shares_of_part(part, sources_by_slug);
        assert forall|j: int| 0 <= j < (a + b).len() implies (#[trigger] (a + b)[j]).1.ducats > 0 by {
            if j >= a.len() {
                assert((a + b)[j] == b[j - a.len()]);
            }
        }
    }
}

/// Only prime parts count: every share gathered for a relic belongs to a
/// part with a positive ducat value.
pub proof fn lemma_contents_from_prime_parts<R>(
    parts: Seq<&ItemShort>,
    sources_by_slug: Map<Seq<char>, Vec<DropSource<R>>>,
    relic_id: Seq<char>,
    i: int,
)
    requires
        group_by_key(relic_shares(parts, sources_by_slug)).contains_key(relic_id),
        0 <= i < group_by_key(relic_shares(parts, sources_by_slug))[relic_id].len(),
    ensures
        group_by_key(relic_shares(parts, sources_by_slug))[relic_id][i].ducats > 0,
{
    let s = relic_shares(parts, sources_by_slug);
    lemma_group_members(s, relic_id, i);
    lemma_relic_shares_positive(parts, sources_by_slug);
    let j = choose|j: int| 0 <= j < s.len() && #[trigger] s[j].0 == relic_id && s[j].1 == group_by_key(s)[relic_id][i];
    assert(s[j].1.ducats > 0);
}

/// Part `p` of `parts` is worth `share.ducats` ducats, and source `j` of its
/// drop sources is of type "relic", names relic `relic_id` and has exactly the
/// drop chances `share.rates`.
pub open spec fn share_drawn_from<R>(
    parts: Seq<&ItemShort>,
    sources_by_slug: Map<Seq<char>, Vec<DropSource<R>>>,
    relic_id: Seq<char>,
    share: PartShare<R>,
    p: int,
    j: int,
) -> bool {
    &&& 0 <= p < parts.len()
    &&& parts[p].ducats == Some(share.ducats)
    &&& sources_by_slug.contains_key(parts[p].slug@)
    &&& 0 <= j < sources_by_slug[parts[p].slug@]@.len()
    &&& sources_by_slug[parts[p].slug@]@[j].source_type@ == "relic"@
    &&& sources_by_slug[parts[p].slug@]@[j].relic is Some
    &&& sources_by_slug[parts[p].slug@]@[j].relic.unwrap()@ == relic_id
    &&& sources_by_slug[parts[p].slug@]@[j].rates == Some(share.rates)
}

/// Some part and relic-type source of `parts` account for `share` in relic
/// `relic_id`, as `share_drawn_from` describes.
pub open spec fn share_has_source<R>(
    parts: Seq<&ItemShort>,
    sources_by_slug: Map<Seq<char>, Vec<DropSource<R>>>,
    relic_id: Seq<char>,
    share: PartShare<R>,
) -> bool {
    exists|p: int, j: int| share_drawn_from(parts, sources_by_slug, relic_id, share, p, j)
}

proof fn lemma_source_shares_drawn<R>(ducats: u32, sources: Seq<DropSource<R>>, q: int)
    requires
        0 <= q < relic_shares_of_sources(ducats, sources).len(),
    ensures
        exists|j: int|
            #![trigger sources[j]]
            0 <= j < sources.len() && sources[j].source_type@ == "relic"@ && sources[j].relic is Some
                && sources[j].relic.unwrap()@ == relic_shares_of_sources(ducats, sources)[q].0
                && sources[j].rates == Some(relic_shares_of_sources(ducats, sources)[q].1.rates)
                && relic_shares_of_sources(ducats, sources)[q].1.ducats == ducats,
    decreases sources.len(),
{
    let prev = relic_shares_of_sources(ducats, sources.drop_last());
    if q < prev.len() {
        lemma_source_shares_drawn(ducats, sources.drop_last(), q);
        let j = choose|j: int|
            #![trigger sources.drop_last()[j]]
            0 <= j < sources.drop_last().len() && sources.drop_last()[j].source_type@ == "relic"@
                && sources.drop_last()[j].relic is Some && sources.drop_last()[j].relic.unwrap()@
                == prev[q].0 && sources.drop_last()[j].rates == Some(prev[q].1.rates)
                && prev[q].1.ducats == ducats;
        assert(sources[j] == sources.drop_last()[j]);
        assert(relic_shares_of_sources(ducats, sources)[q] == prev[q]);
    } else {
        let j = sources.len() - 1;
        assert(sources[j] == sources.last());
    }
}

proof fn lemma_relic_shares_drawn<R>(
    parts: Seq<&ItemShort>,
    sources_by_slug: Map<Seq<char>, Vec<DropSource<R>>>,
    q: int,
)
    requires
        0 <= q < relic_shares(parts, sources_by_slug).len(),
    ensures
        exists|p: int, j: int|
            share_drawn_from(
                parts,
                sources_by_slug,
                relic_shares(parts, sources_by_slug)[q].0,
                relic_shares(parts, sources_by_slug)[q].1,
                p,
                j,
            ),
    decreases parts.len(),
{
    let a = relic_shares(parts.drop_last(), sources_by_slug);
    let part = *parts.last();
    let b = relic_shares_of_part(part, sources_by_slug);
    assert(relic_shares(parts, sources_by_slug) == a + b);
    if q < a.len() {
        lemma_relic_shares_drawn(parts.drop_last(), sources_by_slug, q);
        let (p, j) = choose|p: int, j: int| share_drawn_from(parts.drop_last(), sources_by_slug, a[q].0, a[q].1, p, j);
        assert(parts[p] == parts.drop_last()[p]);
        assert((a + b)[q] == a[q]);
        assert(share_drawn_from(parts, sources_by_slug, a[q].0, a[q].1, p, j));
    } else {
        assert((a + b)[q] == b[q - a.len()]);
        let d = part.ducats.unwrap();
        let srcs = sources_by_slug[part.slug@]@;
        lemma_source_shares_drawn(d, srcs, q - a.len());
        let j = choose|j: int|
            #![trigger srcs[j]]
            0 <= j < srcs.len() && srcs[j].source_type@ == "relic"@ && srcs[j].relic is Some
                && srcs[j].relic.unwrap()@ == b[q - a.len()].0 && srcs[j].rates == Some(b[q - a.len()].1.rates)
                && b[q - a.len()].1.ducats == d;
        let p = parts.len() - 1;
        assert(parts[p] == parts.last());
        assert(share_drawn_from(parts, sources_by_slug, b[q - a.len()].0, b[q - a.len()].1, p, j));
    }
}

/// Every share gathered for a relic is drawn, unchanged, from the input: it
/// carries the ducat value of one of the prime parts and exactly the drop
/// chances (intact, exceptional, flawless, radiant) of one of that part's
/// relic-type sources naming that relic.
pub proof fn lemma_contents_drawn_from_sources<R>(
    parts: Seq<&ItemShort>,
    sources_by_slug: Map<Seq<char>, Vec<DropSource<R>>>,
    relic_id: Seq<char>,
    i: int,
)
    requires
        group_by_key(relic_shares(parts, sources_by_slug)).contains_key(relic_id),
        0 <= i < group_by_key(relic_shares(parts, sources_by_slug))[relic_id].len(),
    ensures
        exists|p: int, j: int|
            share_drawn_from(
                parts,
                sources_by_slug,
                relic_id,
                group_by_key(relic_shares(parts, sources_by_slug))[relic_id][i],
                p,
                j,
            ),
{
    let s = relic_shares(parts, sources_by_slug);
    lemma_group_members(s, relic_id, i);
    let q = choose|q: int| 0 <= q < s.len() && #[trigger] s[q].0 == relic_id && s[q].1 == group_by_key(s)[relic_id][i];
    lemma_relic_shares_drawn(parts, sources_by_slug, q);
}

proof fn lemma_group_has<KV, T>(s: Seq<(KV, T)>, q: int)
    requires
        0 <= q < s.len(),
    ensures
        group_by_key(s).contains_key(s[q].0),
        group_by_key(s)[s[q].0].contains(s[q].1),
    decreases s.len(),
{
    let g = group_by_key(s.drop_last());
    if q == s.len() - 1 {
        let old_list = if g.contains_key(s.last().0) { g[s.last().0] } else { Seq::<T>::empty() };
        assert(group_by_key(s)[s.last().0][old_list.len() as int] == s.last().1);
    } else {
        assert(s.drop_last()[q] == s[q]);
        lemma_group_has(s.drop_last(), q);
        let k = s[q].0;
        let r = choose|r: int| 0 <= r < g[k].len() && g[k][r] == s[q].1;
        if s.last().0 == k {
            assert(group_by_key(s)[k][r] == s[q].1);
        } else {
            assert(group_by_key(s)[k] == g[k]);
        }
    }
}

proof fn lemma_source_shares_has<R>(ducats: u32, sources: Seq<DropSource<R>>, j: int)
    requires
        0 <= j < sources.len(),
        sources[j].source_type@ == "relic"@,
        sources[j].relic is Some,
        sources[j].rates is Some,
    ensures
        relic_shares_of_sources(ducats, sources).contains(
            (sources[j].relic.unwrap()@, PartShare { ducats, rates: sources[j].rates.unwrap() }),
        ),
    decreases sources.len(),
{
    let prev = relic_shares_of_sources(ducats, sources.drop_last());
    if j < sources.len() - 1 {
        assert(sources.drop_last()[j] == sources[j]);
        lemma_source_shares_has(ducats, sources.drop_last(), j);
        let x = (sources[j].relic.unwrap()@, PartShare { ducats, rates: sources[j].rates.unwrap() });
        let r = choose|r: int| 0 <= r < prev.len() && prev[r] == x;
        assert(relic_shares_of_sources(ducats, sources)[r] == x);
    } else {
        assert(sources.last() == sources[j]);
        assert(relic_shares_of_sources(ducats, sources)[prev.len() as int] == (
            sources[j].relic.unwrap()@,
            PartShare { ducats, rates: sources[j].rates.unwrap() },
        ));
    }
}

proof fn lemma_relic_shares_has<R>(
    parts: Seq<&ItemShort>,
    sources_by_slug: Map<Seq<char>, Vec<DropSource<R>>>,
    p: int,
    j: int,
)
    requires
        0 <= p < parts.len(),
        parts[p].ducats is Some,
        parts[p].ducats.unwrap() > 0,
        sources_by_slug.contains_key(parts[p].slug@),
        0 <= j < sources_by_slug[parts[p].slug@]@.len(),
        sources_by_slug[parts[p].slug@]@[j].source_type@ == "relic"@,
        sources_by_slug[parts[p].slug@]@[j].relic is Some,
        sources_by_slug[parts[p].slug@]@[j].rates is Some,
    ensures
        relic_shares(parts, sources_by_slug).contains(
            (
                sources_by_slug[parts[p].slug@]@[j].relic.unwrap()@,
                PartShare {
                    ducats: parts[p].ducats.unwrap(),
                    rates: sources_by_slug[parts[p].slug@]@[j].rates.unwrap(),
                },
            ),
        ),
    decreases parts.len(),
{
    let a = relic_shares(parts.drop_last(), sources_by_slug);
    let b = relic_shares_of_part(*parts.last(), sources_by_slug);
    let src = sources_by_slug[parts[p].slug@]@[j];
    let x = (src.relic.unwrap()@, PartShare { ducats: parts[p].ducats.unwrap(), rates: src.rates.unwrap() });
    assert(relic_shares(parts, sources_by_slug) == a + b);
    if p < parts.len() - 1 {
        assert(parts.drop_last()[p] == parts[p]);
        lemma_relic_shares_has(parts.drop_last(), sources_by_slug, p, j);
        let r = choose|r: int| 0 <= r < a.len() && a[r] == x;
        assert((a + b)[r] == x);
    } else {
        assert(parts.last() == parts[p]);
        lemma_source_shares_has(parts[p].ducats.unwrap(), sources_by_slug[parts[p].slug@]@, j);
        let r = choose|r: int| 0 <= r < b.len() && b[r] == x;
        assert((a + b)[a.len() + r] == x);
    }
}

/// Every relic-type source of a prime part that names a relic and has drop
/// chances puts a share into that relic's contents: the part's ducat value
/// with exactly the source's drop chances.
pub proof fn lemma_sources_reach_contents<R>(
    parts: Seq<&ItemShort>,
    sources_by_slug: Map<Seq<char>, Vec<DropSource<R>>>,
    p: int,
    j: int,
)
    requires
        0 <= p < parts.len(),
        parts[p].ducats is Some,
        parts[p].ducats.unwrap() > 0,
        sources_by_slug.contains_key(parts[p].slug@),
        0 <= j < sources_by_slug[parts[p].slug@]@.len(),
        sources_by_slug[parts[p].slug@]@[j].source_type@ == "relic"@,
        sources_by_slug[parts[p].slug@]@[j].relic is Some,
        sources_by_slug[parts[p].slug@]@[j].rates is Some,
    ensures
        group_by_key(relic_shares(parts, sources_by_slug)).contains_key(
            sources_by_slug[parts[p].slug@]@[j].relic.unwrap()@,
        ),
        group_by_key(relic_shares(parts, sources_by_slug))[sources_by_slug[parts[p].slug@]@[j].relic.unwrap()@].contains(
            PartShare {
                ducats: parts[p].ducats.unwrap(),
                rates: sources_by_slug[parts[p].slug@]@[j].rates.unwrap(),
            },
        ),
{
    let s = relic_shares(parts, sources_by_slug);
    lemma_relic_shares_has(parts, sources_by_slug, p, j);
    let src = sources_by_slug[parts[p].slug@]@[j];
    let x = (src.relic.unwrap()@, PartShare { ducats: parts[p].ducats.unwrap(), rates: src.rates.unwrap() });
    let q = choose|q: int| 0 <= q < s.len() && s[q] == x;
    lemma_group_has(s, q);
}

proof fn lemma_contents_view_drawn_one<R>(
    m: Map<Seq<char>, Vec<PartShare<R>>>,
    parts: Seq<&ItemShort>,
    sources_by_slug: Map<Seq<char>, Vec<DropSource<R>>>,
    k: Seq<char>,
    q: int,
)
    requires
        seq_values(m) == group_by_key(relic_shares(parts, sources_by_slug)),
        m.contains_key(k),
        0 <= q < m[k]@.len(),
    ensures
        share_has_source(parts, sources_by_slug, k, m[k]@[q]),
{
    let g = group_by_key(relic_shares(parts, sources_by_slug));
    assert(seq_values(m).contains_key(k));
    assert(seq_values(m)[k] == m[k]@);
    assert(g.contains_key(k));
    assert(g[k] == m[k]@);
    lemma_contents_drawn_from_sources(parts, sources_by_slug, k, q);
}

proof fn lemma_contents_view_drawn<R>(
    m: Map<Seq<char>, Vec<PartShare<R>>>,
    parts: Seq<&ItemShort>,
    sources_by_slug: Map<Seq<char>, Vec<DropSource<R>>>,
)
    requires
        seq_values(m) == group_by_key(relic_shares(parts, sources_by_slug)),
    ensures
        forall|k: Seq<char>, q: int|
            #![trigger m[k]@[q]]
            m.contains_key(k) && 0 <= q < m[k]@.len() ==> share_has_source(parts, sources_by_slug, k, m[k]@[q]),
{
    assert forall|k: Seq<char>, q: int|
        #![trigger m[k]@[q]]
        m.contains_key(k) && 0 <= q < m[k]@.len() implies share_has_source(parts, sources_by_slug, k, m[k]@[q]) by {
        lemma_contents_view_drawn_one(m, parts, sources_by_slug, k, q);
    }
}

fn is_word(s: &String, word: &str) -> (b: bool)
    ensures
        b == (s@ == word@),
{
    let w = word.to_owned();
    s.eq(&w)
}

/// For each relic id, the shares of the prime parts it contains, in the
/// order of `prime_parts` and of their drop sources.  The expected ducats of
/// opening a relic at a refinement is the sum of `ducats * rate / 100` over
/// its shares.
pub fn relic_contents<R: Copy>(
    prime_parts: &[&ItemShort],
    dropsources_by_slug: &AssocMap<String, Vec<DropSource<R>>>,
) -> (contents: AssocMap<String, Vec<PartShare<R>>>)
    ensures
        seq_values(contents@) == group_by_key(relic_shares(prime_parts@, dropsources_by_slug@)),
        forall|k: Seq<char>, q: int|
            #![trigger contents@[k]@[q]]
            contents@.contains_key(k) && 0 <= q < contents@[k]@.len() ==> share_has_source(
                prime_parts@,
                dropsources_by_slug@,
                k,
                contents@[k]@[q],
            ),
{
    let mut contents: AssocMap<String, Vec<PartShare<R>>> = AssocMap::new();
    let n = prime_parts.len();
    let mut i: usize = 0;
    assert(seq_values(contents@) =~= Map::<Seq<char>, Seq<PartShare<R>>>::empty());
    while i < n
        invariant
            n == prime_parts@.len(),
            i <= n,
            seq_values(contents@) == group_by_key(
                relic_shares(prime_parts@.subrange(0, i as int), dropsources_by_slug@),
            ),
        decreases n - i,
    {
        let part: &ItemShort = prime_parts[i];
        let ghost done = relic_shares(prime_parts@.subrange(0, i as int), dropsources_by_slug@);
        assert(prime_parts@.subrange(0, i + 1).drop_last() =~= prime_parts@.subrange(0, i as int));
        let eligible = match part.ducats {
            Some(d) => d > 0,
            None => false,
        };
        if eligible {
            let d = part.ducats.unwrap();
            match dropsources_by_slug.get(&part.slug) {
                Some(sources) => {
                    let m = sources.len();
                    let mut j: usize = 0;
                    assert(done + relic_shares_of_sources(d, sources@.subrange(0, 0)) =~= done);
                    while j < m
                        invariant
                            m == sources@.len(),
                            j <= m,
                            seq_values(contents@) == group_by_key(
                                done + relic_shares_of_sources(d, sources@.subrange(0, j as int)),
                            ),
                        decreases m - j,
                    {
                        let src = &sources[j];
                        let ghost before = relic_shares_of_sources(d, sources@.subrange(0, j as int));
                        assert(sources@.subrange(0, j + 1).drop_last() =~= sources@.subrange(0, j as int));
                        if is_word(&src.source_type, "relic") {
                            match &src.relic {
                                Some(relic_id) => match src.rates {
                                    Some(rates) => {
                                        let share = PartShare { ducats: d, rates };
                                        let key = relic_id.clone();
                                        proof {
                                            lemma_push_assoc(done, before, (key@, share));
                                            assert((done + before.push((key@, share))).drop_last()
                                                =~= done + before);
                                        }
                                        contents.push_to(key, share);
                                    },
                                    None => {},
                                },
                                None => {},
                            }
                        }
                        j += 1;
                    }
                    assert(sources@.subrange(0, m as int) =~= sources@);
                },
                None => {
                    assert(done + Seq::<(Seq<char>, PartShare<R>)>::empty() =~= done);
                },
            }
        } else {
            assert(done + Seq::<(Seq<char>, PartShare<R>)>::empty() =~= done);
        }
        i += 1;
    }
    assert(prime_parts@.subrange(0, n as int) =~= prime_parts@);
    proof {
        lemma_contents_view_drawn(contents@, prime_parts@, dropsources_by_slug@);
    }
    contents
}

// ---------------------------------------------------------------------------
// Step 2 — mission terms
// ---------------------------------------------------------------------------

/// The rotation as it is grouped: upper-cased, so that "a" and "A" coincide.
pub open spec fn rotation_key(rotation: Option<String>) -> Option<Seq<char>> {
    match rotation {
        Some(r) => Some(upper_case(r@)),
        None => None,
    }
}

/// Rotations are compared after upper-casing: two rotations with the same
/// upper-case mapping ("a" and "A") fall into the same combination.
pub proof fn lemma_rotation_case_insensitive(a: String, b: String)
    requires
        upper_case(a@) == upper_case(b@),
    ensures
        rotation_key(Some(a)) == rotation_key(Some(b)),
{
}

/// A (location, mission, rotation) combination.
pub struct ScoreKey {
    pub location_id: String,
    pub mission_id: String,
    /// Upper-cased; `None` for non-rotation missions (Spy, Capture, etc.)
    pub rotation: Option<String>,
}

impl View for ScoreKey {
    type V = (Seq<char>, Seq<char>, Option<Seq<char>>);

    open spec fn view(&self) -> (Seq<char>, Seq<char>, Option<Seq<char>>) {
        (
            self.location_id@,
            self.mission_id@,
            match self.rotation {
                Some(r) => Some(r@),
                None => None,
            },
        )
    }
}

impl KeyEq for ScoreKey {
    fn key_eq(&self, other: &Self) -> (b: bool) {
        let same_rotation = match (&self.rotation, &other.rotation) {
            (Some(a), Some(b)) => a.eq(b),
            (None, None) => true,
            _ => false,
        };
        self.location_id.eq(&other.location_id) && self.mission_id.eq(&other.mission_id)
            && same_rotation
    }
}

/// The (combination, (drop rate, relic intact value)) terms that the drop
/// sources of one relic worth `value` give: one per source of type "mission"
/// that names a location and a mission and has a rate, in source order.
pub open spec fn mission_terms_of_sources<R>(value: R, sources: Seq<DropSource<R>>) -> Seq<
    ((Seq<char>, Seq<char>, Option<Seq<char>>), (R, R)),
>
    decreases sources.len(),
{
    if sources.len() == 0 {
        Seq::empty()
    } else {
        let prev = mission_terms_of_sources(value, sources.drop_last());
        let s = sources.last();
        if s.source_type@ == "mission"@ && s.location is Some && s.mission is Some && s.rate is Some {
            prev.push(
                (
                    (s.location.unwrap()@, s.mission.unwrap()@, rotation_key(s.rotation)),
                    (s.rate.unwrap(), value),
                ),
            )
        } else {
            prev
        }
    }
}

/// The terms of one relic: none unless both its value (by id) and its drop
/// sources (by slug) are known.
pub open spec fn mission_terms_of_relic<R>(
    relic: ItemShort,
    sources_by_slug: Map<Seq<char>, Vec<DropSource<R>>>,
    values: Map<Seq<char>, R>,
) -> Seq<((Seq<char>, Seq<char>, Option<Seq<char>>), (R, R))> {
    if values.contains_key(relic.id@) && sources_by_slug.contains_key(relic.slug@) {
        mission_terms_of_sources(values[relic.id@], sources_by_slug[relic.slug@]@)
    } else {
        Seq::empty()
    }
}

/// The terms of all relics, relic by relic.
pub open spec fn mission_terms<R>(
    relics: Seq<&ItemShort>,
    sources_by_slug: Map<Seq<char>, Vec<DropSource<R>>>,
    values: Map<Seq<char>, R>,
) -> Seq<((Seq<char>, Seq<char>, Option<Seq<char>>), (R, R))>
    decreases relics.len(),
{
    if relics.len() == 0 {
        Seq::empty()
    } else {
        mission_terms(relics.drop_last(), sources_by_slug, values) + mission_terms_of_relic(
            *relics.last(),
            sources_by_slug,
            values,
        )
    }
}

/// Relic `p` of `relics` has intact value `term.1` and its drop source `j` is
/// of type "mission", at location `key.0` and mission `key.1`, with drop
/// chance `term.0` and a rotation whose upper-case mapping is `key.2`.
pub open spec fn term_drawn_from<R>(
    relics: Seq<&ItemShort>,
    sources_by_slug: Map<Seq<char>, Vec<DropSource<R>>>,
    values: Map<Seq<char>, R>,
    key: (Seq<char>, Seq<char>, Option<Seq<char>>),
    term: (R, R),
    p: int,
    j: int,
) -> bool {
    &&& 0 <= p < relics.len()
    &&& values.contains_key(relics[p].id@)
    &&& values[relics[p].id@] == term.1
    &&& sources_by_slug.contains_key(relics[p].slug@)
    &&& 0 <= j < sources_by_slug[relics[p].slug@]@.len()
    &&& sources_by_slug[relics[p].slug@]@[j].source_type@ == "mission"@
    &&& sources_by_slug[relics[p].slug@]@[j].location is Some
    &&& sources_by_slug[relics[p].slug@]@[j].location.unwrap()@ == key.0
    &&& sources_by_slug[relics[p].slug@]@[j].mission is Some
    &&& sources_by_slug[relics[p].slug@]@[j].mission.unwrap()@ == key.1
    &&& sources_by_slug[relics[p].slug@]@[j].rate == Some(term.0)
    &&& key.2 == match sources_by_slug[relics[p].slug@]@[j].rotation {
        Some(r) => Some(upper_case(r@)),
        None => None,
    }
}

/// Some relic and mission-type source account for `term` under `key`.
pub open spec fn term_has_source<R>(
    relics: Seq<&ItemShort>,
    sources_by_slug: Map<Seq<char>, Vec<DropSource<R>>>,
    values: Map<Seq<char>, R>,
    key: (Seq<char>, Seq<char>, Option<Seq<char>>),
    term: (R, R),
) -> bool {
    exists|p: int, j: int| term_drawn_from(relics, sources_by_slug, values, key, term, p, j)
}

proof fn lemma_mission_sources_drawn<R>(value: R, sources: Seq<DropSource<R>>, q: int)
    requires
        0 <= q < mission_terms_of_sources(value, sources).len(),
    ensures
        exists|j: int|
            #![trigger sources[j]]
            0 <= j < sources.len() && sources[j].source_type@ == "mission"@ && sources[j].location is Some
                && sources[j].location.unwrap()@ == mission_terms_of_sources(value, sources)[q].0.0
                && sources[j].mission is Some
                && sources[j].mission.unwrap()@ == mission_terms_of_sources(value, sources)[q].0.1
                && sources[j].rate == Some(mission_terms_of_sources(value, sources)[q].1.0)
                && mission_terms_of_sources(value, sources)[q].1.1 == value
                && mission_terms_of_sources(value, sources)[q].0.2 == match sources[j].rotation {
                Some(r) => Some(upper_case(r@)),
                None => None,
            },
    decreases sources.len(),
{
    let prev = mission_terms_of_sources(value, sources.drop_last());
    let cur = mission_terms_of_sources(value, sources);
    if q < prev.len() {
        lemma_mission_sources_drawn(value, sources.drop_last(), q);
        let j = choose|j: int|
            #![trigger sources.drop_last()[j]]
            0 <= j < sources.drop_last().len() && sources.drop_last()[j].source_type@ == "mission"@
                && sources.drop_last()[j].location is Some && sources.drop_last()[j].location.unwrap()@
                == prev[q].0.0 && sources.drop_last()[j].mission is Some
                && sources.drop_last()[j].mission.unwrap()@ == prev[q].0.1
                && sources.drop_last()[j].rate == Some(prev[q].1.0) && prev[q].1.1 == value
                && prev[q].0.2 == match sources.drop_last()[j].rotation {
                Some(r) => Some(upper_case(r@)),
                None => None,
            };
        assert(sources[j] == sources.drop_last()[j]);
        assert(cur[q] == prev[q]);
    } else {
        let j = sources.len() - 1;
        assert(sources[j] == sources.last());
    }
}

proof fn lemma_mission_terms_drawn<R>(
    relics: Seq<&ItemShort>,
    sources_by_slug: Map<Seq<char>, Vec<DropSource<R>>>,
    values: Map<Seq<char>, R>,
    q: int,
)
    requires
        0 <= q < mission_terms(relics, sources_by_slug, values).len(),
    ensures
        term_has_source(
            relics,
            sources_by_slug,
            values,
            mission_terms(relics, sources_by_slug, values)[q].0,
            mission_terms(relics, sources_by_slug, values)[q].1,
        ),
    decreases relics.len(),
{
    let a = mission_terms(relics.drop_last(), sources_by_slug, values);
    let relic = *relics.last();
    let b = mission_terms_of_relic(relic, sources_by_slug, values);
    assert(mission_terms(relics, sources_by_slug, values) == a + b);
    if q < a.len() {
        lemma_mission_terms_drawn(relics.drop_last(), sources_by_slug, values, q);
        let (p, j) = choose|p: int, j: int| term_drawn_from(relics.drop_last(), sources_by_slug, values, a[q].0, a[q].1, p, j);
        assert(relics[p] == relics.drop_last()[p]);
        assert((a + b)[q] == a[q]);
        assert(term_drawn_from(relics, sources_by_slug, values, a[q].0, a[q].1, p, j));
    } else {
        let x = b[q - a.len()];
        assert((a + b)[q] == x);
        let v = values[relic.id@];
        let srcs = sources_by_slug[relic.slug@]@;
        lemma_mission_sources_drawn(v, srcs, q - a.len());
        let j = choose|j: int|
            #![trigger srcs[j]]
            0 <= j < srcs.len() && srcs[j].source_type@ == "mission"@ && srcs[j].location is Some
                && srcs[j].location.unwrap()@ == x.0.0 && srcs[j].mission is Some
                && srcs[j].mission.unwrap()@ == x.0.1 && srcs[j].rate == Some(x.1.0) && x.1.1 == v
                && x.0.2 == match srcs[j].rotation {
                Some(r) => Some(upper_case(r@)),
                None => None,
            };
        let p = relics.len() - 1;
        assert(relics[p] == relics.last());
        assert(term_drawn_from(relics, sources_by_slug, values, x.0, x.1, p, j));
    }
}

/// Every term gathered for a (location, mission, rotation) combination is
/// drawn, unchanged, from the input: its drop chance is that of a
/// mission-type source of one of the relics at that location and mission,
/// with that rotation upper-cased, and its value is that relic's value.
pub proof fn lemma_terms_drawn_from_sources<R>(
    relics: Seq<&ItemShort>,
    sources_by_slug: Map<Seq<char>, Vec<DropSource<R>>>,
    values: Map<Seq<char>, R>,
    key: (Seq<char>, Seq<char>, Option<Seq<char>>),
    i: int,
)
    requires
        group_by_key(mission_terms(relics, sources_by_slug, values)).contains_key(key),
        0 <= i < group_by_key(mission_terms(relics, sources_by_slug, values))[key].len(),
    ensures
        term_has_source(
            relics,
            sources_by_slug,
            values,
            key,
            group_by_key(mission_terms(relics, sources_by_slug, values))[key][i],
        ),
{
    let s = mission_terms(relics, sources_by_slug, values);
    lemma_group_members(s, key, i);
    let q = choose|q: int| 0 <= q < s.len() && #[trigger] s[q].0 == key && s[q].1 == group_by_key(s)[key][i];
    lemma_mission_terms_drawn(relics, sources_by_slug, values, q);
}

proof fn lemma_terms_view_drawn<R>(
    m: Map<(Seq<char>, Seq<char>, Option<Seq<char>>), Vec<(R, R)>>,
    relics: Seq<&ItemShort>,
    sources_by_slug: Map<Seq<char>, Vec<DropSource<R>>>,
    values: Map<Seq<char>, R>,
)
    requires
        seq_values(m) == group_by_key(mission_terms(relics, sources_by_slug, values)),
    ensures
        forall|k: (Seq<char>, Seq<char>, Option<Seq<char>>), q: int|
            #![trigger m[k]@[q]]
            m.contains_key(k) && 0 <= q < m[k]@.len() ==> term_has_source(
                relics,
                sources_by_slug,
                values,
                k,
                m[k]@[q],
            ),
{
    assert forall|k: (Seq<char>, Seq<char>, Option<Seq<char>>), q: int|
        #![trigger m[k]@[q]]
        m.contains_key(k) && 0 <= q < m[k]@.len() implies term_has_source(
            relics,
            sources_by_slug,
            values,
            k,
            m[k]@[q],
        ) by {
        let g = group_by_key(mission_terms(relics, sources_by_slug, values));
        assert(seq_values(m).contains_key(k));
        assert(seq_values(m)[k] == m[k]@);
        assert(g[k] == m[k]@);
        lemma_terms_drawn_from_sources(relics, sources_by_slug, values, k, q);
    }
}

proof fn lemma_mission_sources_has<R>(value: R, sources: Seq<DropSource<R>>, j: int)
    requires
        0 <= j < sources.len(),
        sources[j].source_type@ == "mission"@,
        sources[j].location is Some,
        sources[j].mission is Some,
        sources[j].rate is Some,
    ensures
        mission_terms_of_sources(value, sources).contains(
            (
                (sources[j].location.unwrap()@, sources[j].mission.unwrap()@, rotation_key(sources[j].rotation)),
                (sources[j].rate.unwrap(), value),
            ),
        ),
    decreases sources.len(),
{
    let prev = mission_terms_of_sources(value, sources.drop_last());
    let x = (
        (sources[j].location.unwrap()@, sources[j].mission.unwrap()@, rotation_key(sources[j].rotation)),
        (sources[j].rate.unwrap(), value),
    );
    if j < sources.len() - 1 {
        assert(sources.drop_last()[j] == sources[j]);
        lemma_mission_sources_has(value, sources.drop_last(), j);
        let r = choose|r: int| 0 <= r < prev.len() && prev[r] == x;
        assert(mission_terms_of_sources(value, sources)[r] == x);
    } else {
        assert(sources.last() == sources[j]);
        assert(mission_terms_of_sources(value, sources)[prev.len() as int] == x);
    }
}

proof fn lemma_mission_terms_has<R>(
    relics: Seq<&ItemShort>,
    sources_by_slug: Map<Seq<char>, Vec<DropSource<R>>>,
    values: Map<Seq<char>, R>,
    p: int,
    j: int,
)
    requires
        0 <= p < relics.len(),
        values.contains_key(relics[p].id@),
        sources_by_slug.contains_key(relics[p].slug@),
        0 <= j < sources_by_slug[relics[p].slug@]@.len(),
        sources_by_slug[relics[p].slug@]@[j].source_type@ == "mission"@,
        sources_by_slug[relics[p].slug@]@[j].location is Some,
        sources_by_slug[relics[p].slug@]@[j].mission is Some,
        sources_by_slug[relics[p].slug@]@[j].rate is Some,
    ensures
        mission_terms(relics, sources_by_slug, values).contains(
            (
                (
                    sources_by_slug[relics[p].slug@]@[j].location.unwrap()@,
                    sources_by_slug[relics[p].slug@]@[j].mission.unwrap()@,
                    rotation_key(sources_by_slug[relics[p].slug@]@[j].rotation),
                ),
                (sources_by_slug[relics[p].slug@]@[j].rate.unwrap(), values[relics[p].id@]),
            ),
        ),
    decreases relics.len(),
{
    let a = mission_terms(relics.drop_last(), sources_by_slug, values);
    let b = mission_terms_of_relic(*relics.last(), sources_by_slug, values);
    let src = sources_by_slug[relics[p].slug@]@[j];
    let x = (
        (src.location.unwrap()@, src.mission.unwrap()@, rotation_key(src.rotation)),
        (src.rate.unwrap(), values[relics[p].id@]),
    );
    assert(mission_terms(relics, sources_by_slug, values) == a + b);
    if p < relics.len() - 1 {
        assert(relics.drop_last()[p] == relics[p]);
        lemma_mission_terms_has(relics.drop_last(), sources_by_slug, values, p, j);
        let r = choose|r: int| 0 <= r < a.len() && a[r] == x;
        assert((a + b)[r] == x);
    } else {
        assert(relics.last() == relics[p]);
        lemma_mission_sources_has(values[relics[p].id@], sources_by_slug[relics[p].slug@]@, j);
        let r = choose|r: int| 0 <= r < b.len() && b[r] == x;
        assert((a + b)[a.len() + r] == x);
    }
}

/// Every mission-type source of a valued relic that names a location and a
/// mission and has a drop chance puts a term into its combination: the
/// source's drop chance with the relic's value, under the source's location,
/// mission and upper-cased rotation.
pub proof fn lemma_sources_reach_terms<R>(
    relics: Seq<&ItemShort>,
    sources_by_slug: Map<Seq<char>, Vec<DropSource<R>>>,
    values: Map<Seq<char>, R>,
    p: int,
    j: int,
)
    requires
        0 <= p < relics.len(),
        values.contains_key(relics[p].id@),
        sources_by_slug.contains_key(relics[p].slug@),
        0 <= j < sources_by_slug[relics[p].slug@]@.len(),
        sources_by_slug[relics[p].slug@]@[j].source_type@ == "mission"@,
        sources_by_slug[relics[p].slug@]@[j].location is Some,
        sources_by_slug[relics[p].slug@]@[j].mission is Some,
        sources_by_slug[relics[p].slug@]@[j].rate is Some,
    ensures
        ({
            let src = sources_by_slug[relics[p].slug@]@[j];
            let key = (
                src.location.unwrap()@,
                src.mission.unwrap()@,
                match src.rotation {
                    Some(r) => Some(upper_case(r@)),
                    None => None,
                },
            );
            let g = group_by_key(mission_terms(relics, sources_by_slug, values));
            g.contains_key(key) && g[key].contains((src.rate.unwrap(), values[relics[p].id@]))
        }),
{
    let s = mission_terms(relics, sources_by_slug, values);
    lemma_mission_terms_has(relics, sources_by_slug, values, p, j);
    let src = sources_by_slug[relics[p].slug@]@[j];
    let x = (
        (src.location.unwrap()@, src.mission.unwrap()@, rotation_key(src.rotation)),
        (src.rate.unwrap(), values[relics[p].id@]),
    );
    let q = choose|q: int| 0 <= q < s.len() && s[q] == x;
    lemma_group_has(s, q);
}

fn rotation_of(rotation: &Option<String>) -> (r: Option<String>)
    ensures
        match r {
            Some(x) => Some(x@),
            None => None::<Seq<char>>,
        } == rotation_key(*rotation),
{
    match rotation {
        Some(x) => Some(to_upper(x.as_str())),
        None => None,
    }
}

/// For each (location, mission, rotation) combination, the (drop rate,
/// relic intact value) terms of the relics that drop there, in the order of
/// `relics` and of their drop sources.  `relic_values` holds the intact value
/// of each relic by relic id.  The expected ducats per run of a combination
/// is the sum of `rate / 100 * value` over its terms.
pub fn mission_score_terms<R: Copy>(
    relics: &[&ItemShort],
    dropsources_by_slug: &AssocMap<String, Vec<DropSource<R>>>,
    relic_values: &AssocMap<String, R>,
) -> (terms: AssocMap<ScoreKey, Vec<(R, R)>>)
    ensures
        seq_values(terms@) == group_by_key(
            mission_terms(relics@, dropsources_by_slug@, relic_values@),
        ),
        forall|k: (Seq<char>, Seq<char>, Option<Seq<char>>), q: int|
            #![trigger terms@[k]@[q]]
            terms@.contains_key(k) && 0 <= q < terms@[k]@.len() ==> term_has_source(
                relics@,
                dropsources_by_slug@,
                relic_values@,
                k,
                terms@[k]@[q],
            ),
{
    let mut terms: AssocMap<ScoreKey, Vec<(R, R)>> = AssocMap::new();
    let n = relics.len();
    let mut i: usize = 0;
    assert(seq_values(terms@) =~= Map::<(Seq<char>, Seq<char>, Option<Seq<char>>), Seq<(R, R)>>::empty());
    while i < n
        invariant
            n == relics@.len(),
            i <= n,
            seq_values(terms@) == group_by_key(
                mission_terms(relics@.subrange(0, i as int), dropsources_by_slug@, relic_values@),
            ),
        decreases n - i,
    {
        let relic: &ItemShort = relics[i];
        let ghost done = mission_terms(relics@.subrange(0, i as int), dropsources_by_slug@, relic_values@);
        assert(relics@.subrange(0, i + 1).drop_last() =~= relics@.subrange(0, i as int));
        match relic_values.get(&relic.id) {
            Some(value_ref) => {
                let value: R = *value_ref;
                match dropsources_by_slug.get(&relic.slug) {
                    Some(sources) => {
                        let m = sources.len();
                        let mut j: usize = 0;
                        assert(done + mission_terms_of_sources(value, sources@.subrange(0, 0)) =~= done);
                        while j < m
                            invariant
                                m == sources@.len(),
                                j <= m,
                                seq_values(terms@) == group_by_key(
                                    done + mission_terms_of_sources(value, sources@.subrange(0, j as int)),
                                ),
                            decreases m - j,
                        {
                            let src = &sources[j];
                            let ghost before = mission_terms_of_sources(value, sources@.subrange(0, j as int));
                            assert(sources@.subrange(0, j + 1).drop_last() =~= sources@.subrange(0, j as int));
                            if is_word(&src.source_type, "mission") {
                                match (&src.location, &src.mission, src.rate) {
                                    (Some(loc_id), Some(mis_id), Some(rate)) => {
                                        let key = ScoreKey {
                                            location_id: loc_id.clone(),
                                            mission_id: mis_id.clone(),
                                            rotation: rotation_of(&src.rotation),
                                        };
                                        proof {
                                            lemma_push_assoc(done, before, (key@, (rate, value)));
                                            assert((done + before.push((key@, (rate, value)))).drop_last()
                                                =~= done + before);
                                        }
                                        terms.push_to(key, (rate, value));
                                    },
                                    _ => {},
                                }
                            }
                            j += 1;
                        }
                        assert(sources@.subrange(0, m as int) =~= sources@);
                    },
                    None => {
                        assert(done + Seq::<((Seq<char>, Seq<char>, Option<Seq<char>>), (R, R))>::empty() =~= done);
                    },
                }
            },
            None => {
                assert(done + Seq::<((Seq<char>, Seq<char>, Option<Seq<char>>), (R, R))>::empty() =~= done);
            },
        }
        i += 1;
    }
    assert(relics@.subrange(0, n as int) =~= relics@);
    proof {
        lemma_terms_view_drawn(terms@, relics@, dropsources_by_slug@, relic_values@);
    }
    terms
}

// ---------------------------------------------------------------------------
// Scores
// ---------------------------------------------------------------------------

/// Expected ducats per run of one (location, mission, rotation) combination;
/// `S` is the type of the expectation.
pub struct MissionScore<S> {
    pub location_id: String,
    pub mission_id: String,
    /// `None` for non-rotation missions (Spy, Capture, etc.)
    pub rotation: Option<String>,
    /// Expected ducats per run assuming intact relics.
    pub expected_ducats: S,
}

/// The location of the score is one that `locations` knows.
pub open spec fn location_resolved<S>(
    score: MissionScore<S>,
    locations: Map<Seq<char>, Location>,
) -> bool {
    locations.contains_key(score.location_id@)
}

/// The scores whose location can be resolved, in their order.
pub fn resolved_scores<'a, S>(
    scores: &'a [MissionScore<S>],
    locations: &AssocMap<String, Location>,
) -> (r: Vec<&'a MissionScore<S>>)
    ensures
        deref_all(r@) == select(scores@, |s: MissionScore<S>| location_resolved(s, locations@)),
        forall|i: int| 0 <= i < r@.len() ==> locations@.contains_key((#[trigger] r@[i]).location_id@),
        forall|i: int| 0 <= i < r@.len() ==> scores@.contains(*#[trigger] r@[i]),
        forall|i: int|
            0 <= i < scores@.len() && locations@.contains_key((#[trigger] scores@[i]).location_id@)
                ==> deref_all(r@).contains(scores@[i]),
{
    let ghost p = |s: MissionScore<S>| location_resolved(s, locations@);
    let mut r: Vec<&'a MissionScore<S>> = Vec::new();
    let n = scores.len();
    let mut i: usize = 0;
    assert(deref_all(r@) =~= select(scores@.subrange(0, 0), p));
    while i < n
        invariant
            n == scores@.len(),
            i <= n,
            p == (|s: MissionScore<S>| location_resolved(s, locations@)),
            deref_all(r@) == select(scores@.subrange(0, i as int), p),
        decreases n - i,
    {
        let score = &scores[i];
        let ghost before = deref_all(r@);
        assert(scores@.subrange(0, i + 1).drop_last() =~= scores@.subrange(0, i as int));
        if locations.contains_key(&score.location_id) {
            r.push(score);
            assert(deref_all(r@) =~= before.push(*score));
        }
        i += 1;
    }
    assert(scores@.subrange(0, n as int) =~= scores@);
    proof {
        lemma_select_sound(scores@, p);
        assert forall|q: int| 0 <= q < r@.len() implies locations@.contains_key((#[trigger] r@[q]).location_id@) by {
            assert(deref_all(r@)[q] == *r@[q]);
            assert(p(select(scores@, p)[q]));
        }
        assert forall|q: int| 0 <= q < r@.len() implies scores@.contains(*#[trigger] r@[q]) by {
            assert(deref_all(r@)[q] == *r@[q]);
            assert(scores@.contains(select(scores@, p)[q]));
        }
        assert forall|q: int|
            0 <= q < scores@.len() && locations@.contains_key((#[trigger] scores@[q]).location_id@)
            implies deref_all(r@).contains(scores@[q]) by {
            assert(p(scores@[q]));
            lemma_select_complete(scores@, p, q);
        }
    }
    r
}

/// "{system} / {node} ({mission}{ / rotation})", where an unknown system reads
/// "?", and an unknown node or mission name falls back to its id.
pub open spec fn score_label_spec<S>(
    score: MissionScore<S>,
    locations: Map<Seq<char>, Location>,
    missions: Map<Seq<char>, Mission>,
) -> Seq<char> {
    let lid = score.location_id@;
    let mid = score.mission_id@;
    let system = if locations.contains_key(lid) && locations[lid].system_name_spec() is Some {
        locations[lid].system_name_spec().unwrap()
    } else {
        "?"@
    };
    let node = if locations.contains_key(lid) && locations[lid].node_name_spec() is Some {
        locations[lid].node_name_spec().unwrap()
    } else {
        lid
    };
    let mission_name = if missions.contains_key(mid) && missions[mid].name_spec() is Some {
        missions[mid].name_spec().unwrap()
    } else {
        mid
    };
    let rotation_part = match score.rotation {
        Some(r) => " / "@ + r@,
        None => Seq::<char>::empty(),
    };
    system + " / "@ + node + " ("@ + mission_name + rotation_part + ")"@
}

/// The label names the combination only: scores of one location, mission and
/// rotation get the same label whatever their expected ducats.
pub proof fn lemma_label_ignores_score<S>(
    a: MissionScore<S>,
    b: MissionScore<S>,
    locations: Map<Seq<char>, Location>,
    missions: Map<Seq<char>, Mission>,
)
    requires
        a.location_id@ == b.location_id@,
        a.mission_id@ == b.mission_id@,
        a.rotation is Some == b.rotation is Some,
        a.rotation is Some ==> a.rotation.unwrap()@ == b.rotation.unwrap()@,
    ensures
        score_label_spec(a, locations, missions) == score_label_spec(b, locations, missions),
{
}

/// With nothing known of the location and the mission, the label is
/// "? / {location id} ({mission id}{ / rotation})".
pub proof fn lemma_label_unknown_names<S>(
    score: MissionScore<S>,
    locations: Map<Seq<char>, Location>,
    missions: Map<Seq<char>, Mission>,
)
    requires
        !locations.contains_key(score.location_id@),
        !missions.contains_key(score.mission_id@),
    ensures
        score.rotation is None ==> score_label_spec(score, locations, missions) == "?"@ + " / "@
            + score.location_id@ + " ("@ + score.mission_id@ + ")"@,
        score.rotation is Some ==> score_label_spec(score, locations, missions) == "?"@ + " / "@
            + score.location_id@ + " ("@ + score.mission_id@ + " / "@ + score.rotation.unwrap()@
            + ")"@,
{
    if score.rotation is None {
        assert(score_label_spec(score, locations, missions) =~= "?"@ + " / "@ + score.location_id@ + " ("@
            + score.mission_id@ + ")"@);
    } else {
        assert(score_label_spec(score, locations, missions) =~= "?"@ + " / "@ + score.location_id@ + " ("@
            + score.mission_id@ + " / "@ + score.rotation.unwrap()@ + ")"@);
    }
}

/// A known location with English names opens the label with its system and
/// node; a rotation closes it as " / {rotation})".
pub proof fn lemma_label_frame<S>(
    score: MissionScore<S>,
    locations: Map<Seq<char>, Location>,
    missions: Map<Seq<char>, Mission>,
)
    ensures
        ends_with(score_label_spec(score, locations, missions), ")"@),
        score.rotation is Some ==> ends_with(
            score_label_spec(score, locations, missions),
            " / "@ + score.rotation.unwrap()@ + ")"@,
        ),
        locations.contains_key(score.location_id@) && locations[score.location_id@].system_name_spec() is Some
            && locations[score.location_id@].node_name_spec() is Some ==> starts_with(
            score_label_spec(score, locations, missions),
            locations[score.location_id@].system_name_spec().unwrap() + " / "@
                + locations[score.location_id@].node_name_spec().unwrap() + " ("@,
        ),
{
    let lid = score.location_id@;
    let mid = score.mission_id@;
    let system = if locations.contains_key(lid) && locations[lid].system_name_spec() is Some {
        locations[lid].system_name_spec().unwrap()
    } else {
        "?"@
    };
    let node = if locations.contains_key(lid) && locations[lid].node_name_spec() is Some {
        locations[lid].node_name_spec().unwrap()
    } else {
        lid
    };
    let mission_name = if missions.contains_key(mid) && missions[mid].name_spec() is Some {
        missions[mid].name_spec().unwrap()
    } else {
        mid
    };
    let rotation_part = match score.rotation {
        Some(r) => " / "@ + r@,
        None => Seq::<char>::empty(),
    };
    let head = system + " / "@ + node + " ("@;
    let t = score_label_spec(score, locations, missions);
    assert(t =~= head + (mission_name + rotation_part + ")"@));
    lemma_concat_starts_ends(head, mission_name + rotation_part + ")"@);
    assert(t =~= (head + mission_name + rotation_part) + ")"@);
    lemma_concat_starts_ends(head + mission_name + rotation_part, ")"@);
    if score.rotation is Some {
        assert(t =~= (head + mission_name) + (" / "@ + score.rotation.unwrap()@ + ")"@));
        lemma_concat_starts_ends(head + mission_name, " / "@ + score.rotation.unwrap()@ + ")"@);
    }
}

/// The text that names a score's combination; the expected ducats follow it
/// when a score is shown.
pub fn score_label<S>(
    score: &MissionScore<S>,
    locations: &AssocMap<String, Location>,
    missions: &AssocMap<String, Mission>,
) -> (label: String)
    ensures
        label@ == score_label_spec(*score, locations@, missions@),
{
    let loc = locations.get(&score.location_id);
    let mis = missions.get(&score.mission_id);
    let system: &str = match loc {
        Some(l) => match l.system_name() {
            Some(x) => x,
            None => "?",
        },
        None => "?",
    };
    let node: &str = match loc {
        Some(l) => match l.node_name() {
            Some(x) => x,
            None => score.location_id.as_str(),
        },
        None => score.location_id.as_str(),
    };
    let mission_name: &str = match mis {
        Some(m) => match m.name() {
            Some(x) => x,
            None => score.mission_id.as_str(),
        },
        None => score.mission_id.as_str(),
    };
    let mut label = system.to_owned();
    label.append(" / ");
    label.append(node);
    label.append(" (");
    label.append(mission_name);
    match &score.rotation {
        Some(r) => {
            label.append(" / ");
            label.append(r.as_str());
        },
        None => {},
    }
    label.append(")");
    assert(label@ =~= score_label_spec(*score, locations@, missions@));
    label
}

// ---------------------------------------------------------------------------
// Lookup maps
// ---------------------------------------------------------------------------

/// Records that carry an id.
pub trait Identified {
    spec fn id_view(&self) -> Seq<char>;

    fn id_string(&self) -> (r: &String)
        ensures
            r@ == self.id_view(),
    ;
}

impl Identified for Location {
    open spec fn id_view(&self) -> Seq<char> {
        self.id@
    }

    fn id_string(&self) -> (r: &String) {
        &self.id
    }
}

impl Identified for Mission {
    open spec fn id_view(&self) -> Seq<char> {
        self.id@
    }

    fn id_string(&self) -> (r: &String) {
        &self.id
    }
}

/// The records by id; a later record with the same id replaces an earlier one.
pub open spec fn by_id<T: Identified>(s: Seq<T>) -> Map<Seq<char>, T>
    decreases s.len(),
{
    if s.len() == 0 {
        Map::empty()
    } else {
        by_id(s.drop_last()).insert(s.last().id_view(), s.last())
    }
}

proof fn lemma_by_id_prepend<T: Identified>(x: T, t: Seq<T>)
    ensures
        by_id(seq![x] + t) == (if by_id(t).contains_key(x.id_view()) {
            by_id(t)
        } else {
            by_id(t).insert(x.id_view(), x)
        }),
    decreases t.len(),
{
    if t.len() == 0 {
        let s1 = seq![x];
        assert(seq![x] + t =~= s1);
        assert(s1.drop_last() =~= Seq::<T>::empty());
        assert(s1.last() == x);
        assert(by_id(s1.drop_last()) == Map::<Seq<char>, T>::empty());
        assert(by_id(s1) == by_id(s1.drop_last()).insert(x.id_view(), x));
        assert(by_id(t) == Map::<Seq<char>, T>::empty());
    } else {
        assert((seq![x] + t).drop_last() =~= seq![x] + t.drop_last());
        lemma_by_id_prepend(x, t.drop_last());
        assert(by_id(seq![x] + t) =~= (if by_id(t).contains_key(x.id_view()) {
            by_id(t)
        } else {
            by_id(t).insert(x.id_view(), x)
        }));
    }
}

/// Every record in the lookup map sits under its own id, every id of the
/// list is a key, and under each id sits the last record of the list with
/// that id.
pub proof fn lemma_by_id_keys<T: Identified>(s: Seq<T>)
    ensures
        forall|k: Seq<char>| #[trigger] by_id(s).contains_key(k) ==> by_id(s)[k].id_view() == k,
        forall|i: int| 0 <= i < s.len() ==> by_id(s).contains_key((#[trigger] s[i]).id_view()),
        forall|i: int|
            0 <= i < s.len() && (forall|j: int| i < j < s.len() ==> (#[trigger] s[j]).id_view() != s[i].id_view())
                ==> by_id(s)[(#[trigger] s[i]).id_view()] == s[i],
    decreases s.len(),
{
    if s.len() > 0 {
        lemma_by_id_keys(s.drop_last());
        let t = s.drop_last();
        assert forall|k: Seq<char>| #[trigger] by_id(s).contains_key(k) implies by_id(s)[k].id_view() == k by {
            if k != s.last().id_view() {
                assert(by_id(t).contains_key(k));
            }
        }
        assert forall|i: int| 0 <= i < s.len() implies by_id(s).contains_key((#[trigger] s[i]).id_view()) by {
            if i < t.len() {
                assert(t[i] == s[i]);
            }
        }
        assert forall|i: int|
            0 <= i < s.len() && (forall|j: int| i < j < s.len() ==> (#[trigger] s[j]).id_view() != s[i].id_view())
            implies by_id(s)[(#[trigger] s[i]).id_view()] == s[i] by {
            if i < t.len() {
                assert(t[i] == s[i]);
                assert(s[s.len() - 1].id_view() != s[i].id_view());
                assert forall|j: int| i < j < t.len() implies (#[trigger] t[j]).id_view() != t[i].id_view() by {
                    assert(t[j] == s[j]);
                }
            }
        }
    }
}

/// A lookup map of records by id, as collecting `(id, record)` pairs into a
/// map gives it.
pub fn index_by_id<T: Identified>(list: Vec<T>) -> (m: AssocMap<String, T>)
    ensures
        m@ == by_id(list@),
        forall|k: Seq<char>| #[trigger] m@.contains_key(k) ==> m@[k].id_view() == k,
        forall|i: int| 0 <= i < list@.len() ==> m@.contains_key((#[trigger] list@[i]).id_view()),
{
    proof {
        lemma_by_id_keys(list@);
    }
    let ghost all = list@;
    let n = list.len();
    let mut rest = list;
    let mut m: AssocMap<String, T> = AssocMap::new();
    let mut k: usize = n;
    assert(all.subrange(n as int, n as int) =~= Seq::<T>::empty());
    assert(m@ =~= by_id(all.subrange(n as int, n as int)));
    while k > 0
        invariant
            k <= n,
            n == all.len(),
            rest@ == all.subrange(0, k as int),
            m@ == by_id(all.subrange(k as int, n as int)),
        decreases k,
    {
        let x = rest.pop().unwrap();
        assert(x == all[k - 1]);
        assert(all.subrange(k - 1, n as int) =~= seq![x] + all.subrange(k as int, n as int));
        proof {
            lemma_by_id_prepend(x, all.subrange(k as int, n as int));
        }
        let id = x.id_string().clone();
        if !m.contains_key(&id) {
            m.insert(id, x);
        }
        k -= 1;
        assert(rest@ =~= all.subrange(0, k as int));
    }
    assert(all.subrange(0, n as int) =~= all);
    m
}

} // verus!
