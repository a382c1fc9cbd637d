//! Which items the commands work on: prime parts, relics, the dropsource
//! targets of `update`, and the ducat values that `listen` looks up.

use vstd::prelude::*;

use crate::assoc::AssocMap;
use crate::seqs::{deref_all, lemma_select_complete, lemma_select_sound, select};
use crate::models::{listed, ItemShort};

verus! {

/// A prime part: an item with a positive ducat value.
pub open spec fn prime_part(item: ItemShort) -> bool {
    item.ducats is Some && item.ducats.unwrap() > 0
}

/// An item tagged "relic".
pub open spec fn relic_item(item: ItemShort) -> bool {
    exists|j: int| 0 <= j < item.tags@.len() && #[trigger] item.tags@[j]@ == "relic"@
}

pub fn is_prime_part(item: &ItemShort) -> (b: bool)
    ensures
        b == prime_part(*item),
        b ==> item.ducats is Some && item.ducats.unwrap() > 0,
        item.ducats is Some && item.ducats.unwrap() > 0 ==> b,
{
    match item.ducats {
        Some(d) => d > 0,
        None => false,
    }
}

/// A tag "relic" at any position makes an item a relic.
pub proof fn lemma_relic_tag_anywhere(item: ItemShort, j: int)
    requires
        0 <= j < item.tags@.len(),
        item.tags@[j]@ == "relic"@,
    ensures
        relic_item(item),
{
}

/// An item without a tag "relic" is not a relic.
pub proof fn lemma_relic_needs_tag(item: ItemShort)
    requires
        forall|j: int| 0 <= j < item.tags@.len() ==> item.tags@[j]@ != "relic"@,
    ensures
        !relic_item(item),
{
}

/// Being a relic does not depend on the order of the tags: items whose tags
/// are the same up to reordering are both relics or both not.
pub proof fn lemma_relic_ignores_tag_order(a: ItemShort, b: ItemShort)
    requires
        a.tags@.to_multiset() == b.tags@.to_multiset(),
    ensures
        relic_item(a) == relic_item(b),
{
    a.tags@.to_multiset_ensures();
    b.tags@.to_multiset_ensures();
    if relic_item(a) {
        let j = choose|j: int| 0 <= j < a.tags@.len() && #[trigger] a.tags@[j]@ == "relic"@;
        assert(a.tags@.contains(a.tags@[j]));
        assert(a.tags@.to_multiset().count(a.tags@[j]) > 0);
        assert(b.tags@.to_multiset().count(a.tags@[j]) > 0);
        assert(b.tags@.contains(a.tags@[j]));
        let k = choose|k: int| 0 <= k < b.tags@.len() && b.tags@[k] == a.tags@[j];
        assert(b.tags@[k]@ == "relic"@);
    }
    if relic_item(b) {
        let j = choose|j: int| 0 <= j < b.tags@.len() && #[trigger] b.tags@[j]@ == "relic"@;
        assert(b.tags@.contains(b.tags@[j]));
        assert(b.tags@.to_multiset().count(b.tags@[j]) > 0);
        assert(a.tags@.to_multiset().count(b.tags@[j]) > 0);
        assert(a.tags@.contains(b.tags@[j]));
        let k = choose|k: int| 0 <= k < a.tags@.len() && a.tags@[k] == b.tags@[j];
        assert(a.tags@[k]@ == "relic"@);
    }
}

pub fn is_relic(item: &ItemShort) -> (b: bool)
    ensures
        b == relic_item(*item),
        forall|j: int| 0 <= j < item.tags@.len() && #[trigger] item.tags@[j]@ == "relic"@ ==> b,
        b ==> exists|j: int| 0 <= j < item.tags@.len() && #[trigger] item.tags@[j]@ == "relic"@,
{
    let relic = "relic".to_owned();
    let n = item.tags.len();
    let mut j: usize = 0;
    while j < n
        invariant
            n == item.tags@.len(),
            j <= n,
            relic@ == "relic"@,
            forall|k: int| 0 <= k < j ==> #[trigger] item.tags@[k]@ != "relic"@,
        decreases n - j,
    {
        if item.tags[j].eq(&relic) {
            return true;
        }
        j += 1;
    }
    false
}

pub enum ItemClass {
    PrimePart,
    Relic,
}

pub open spec fn in_class(class: ItemClass, item: ItemShort) -> bool {
    match class {
        ItemClass::PrimePart => prime_part(item),
        ItemClass::Relic => relic_item(item),
    }
}

/// The items of a class, in their order.
pub fn items_of_class<'a>(items: &'a [ItemShort], class: ItemClass) -> (r: Vec<&'a ItemShort>)
    ensures
        deref_all(r@) == select(items@, |it: ItemShort| in_class(class, it)),
        forall|i: int| 0 <= i < r@.len() ==> items@.contains(*#[trigger] r@[i]),
        class is PrimePart ==> forall|i: int|
            0 <= i < r@.len() ==> (#[trigger] r@[i]).ducats is Some && r@[i].ducats.unwrap() > 0,
        class is Relic ==> forall|i: int| 0 <= i < r@.len() ==> listed((#[trigger] r@[i]).tags@, "relic"@),
        class is PrimePart ==> forall|i: int|
            0 <= i < items@.len() && (#[trigger] items@[i]).ducats is Some && items@[i].ducats.unwrap() > 0
                ==> deref_all(r@).contains(items@[i]),
        class is Relic ==> forall|i: int|
            0 <= i < items@.len() && listed((#[trigger] items@[i]).tags@, "relic"@) ==> deref_all(r@).contains(
                items@[i],
            ),
{
    let ghost p = |it: ItemShort| in_class(class, it);
    let mut r: Vec<&'a ItemShort> = Vec::new();
    let n = items.len();
    let mut i: usize = 0;
    assert(deref_all(r@) =~= select(items@.subrange(0, 0), p));
    while i < n
        invariant
            n == items@.len(),
            i <= n,
            p == (|it: ItemShort| in_class(class, it)),
            deref_all(r@) == select(items@.subrange(0, i as int), p),
        decreases n - i,
    {
        let item = &items[i];
        let ghost before = deref_all(r@);
        assert(items@.subrange(0, i + 1).drop_last() =~= items@.subrange(0, i as int));
        let wanted = match class {
            ItemClass::PrimePart => is_prime_part(item),
            ItemClass::Relic => is_relic(item),
        };
        if wanted {
            r.push(item);
            assert(deref_all(r@) =~= before.push(*item));
        }
        i += 1;
    }
    assert(items@.subrange(0, n as int) =~= items@);
    proof {
        lemma_select_sound(items@, p);
        assert forall|q: int| 0 <= q < r@.len() implies items@.contains(*#[trigger] r@[q]) && in_class(class, *r@[q]) by {
            assert(deref_all(r@)[q] == *r@[q]);
            assert(p(select(items@, p)[q]));
        }
        assert forall|q: int| 0 <= q < items@.len() && in_class(class, #[trigger] items@[q]) implies deref_all(r@).contains(items@[q]) by {
            assert(p(items@[q]));
            lemma_select_complete(items@, p, q);
        }
    }
    r
}

// ---------------------------------------------------------------------------
// Dropsource targets
// ---------------------------------------------------------------------------

/// Some item of `s` has slug `slug`.
pub open spec fn has_slug(s: Seq<ItemShort>, slug: Seq<char>) -> bool {
    exists|k: int| 0 <= k < s.len() && #[trigger] s[k].slug@ == slug
}

/// The first item of each slug, in order.
pub open spec fn dedup_by_slug(s: Seq<ItemShort>) -> Seq<ItemShort>
    decreases s.len(),
{
    if s.len() == 0 {
        Seq::empty()
    } else {
        let d = dedup_by_slug(s.drop_last());
        if has_slug(d, s.last().slug@) {
            d
        } else {
            d.push(s.last())
        }
    }
}

fn add_if_new_slug<'a>(targets: &mut Vec<&'a ItemShort>, item: &'a ItemShort)
    ensures
        deref_all(final(targets)@) == (if has_slug(deref_all(old(targets)@), item.slug@) {
            deref_all(old(targets)@)
        } else {
            deref_all(old(targets)@).push(*item)
        }),
{
    let n = targets.len();
    let mut k: usize = 0;
    while k < n
        invariant
            n == targets@.len(),
            k <= n,
            targets@ == old(targets)@,
            forall|q: int| 0 <= q < k ==> #[trigger] deref_all(targets@)[q].slug@ != item.slug@,
        decreases n - k,
    {
        if targets[k].slug.eq(&item.slug) {
            assert(deref_all(targets@)[k as int].slug@ == item.slug@);
            return;
        }
        k += 1;
    }
    let ghost before = deref_all(targets@);
    targets.push(item);
    assert(deref_all(targets@) =~= before.push(*item));
}

/// The items to fetch dropsources for: prime parts then relics, keeping the
/// first item of each slug.
pub fn fetch_targets<'a>(prime_parts: &[&'a ItemShort], relics: &[&'a ItemShort]) -> (targets: Vec<
    &'a ItemShort,
>)
    ensures
        deref_all(targets@) == dedup_by_slug(deref_all(prime_parts@) + deref_all(relics@)),
        forall|i: int, j: int|
            0 <= i < j < targets@.len() ==> (#[trigger] targets@[i]).slug@ != (#[trigger] targets@[j]).slug@,
        forall|i: int|
            0 <= i < prime_parts@.len() ==> has_slug(deref_all(targets@), (#[trigger] prime_parts@[i]).slug@),
        forall|i: int|
            0 <= i < relics@.len() ==> has_slug(deref_all(targets@), (#[trigger] relics@[i]).slug@),
        forall|q: int|
            0 <= q < targets@.len() ==> (deref_all(prime_parts@) + deref_all(relics@)).contains(
                *#[trigger] targets@[q],
            ),
{
    let ghost all = deref_all(prime_parts@) + deref_all(relics@);
    let n1 = prime_parts.len();
    let n2 = relics.len();
    let mut targets: Vec<&'a ItemShort> = Vec::new();
    let mut k: usize = 0;
    assert(deref_all(targets@) =~= dedup_by_slug(all.subrange(0, 0)));
    while k < n1
        invariant
            n1 == prime_parts@.len(),
            n2 == relics@.len(),
            all == deref_all(prime_parts@) + deref_all(relics@),
            k <= n1,
            deref_all(targets@) == dedup_by_slug(all.subrange(0, k as int)),
        decreases n1 - k,
    {
        assert(all.subrange(0, k + 1).drop_last() =~= all.subrange(0, k as int));
        assert(all.subrange(0, k + 1).last() == *prime_parts@[k as int]);
        add_if_new_slug(&mut targets, prime_parts[k]);
        k += 1;
    }
    let mut k2: usize = 0;
    while k2 < n2
        invariant
            n1 == prime_parts@.len(),
            n2 == relics@.len(),
            all == deref_all(prime_parts@) + deref_all(relics@),
            k2 <= n2,
            deref_all(targets@) == dedup_by_slug(all.subrange(0, n1 + k2)),
        decreases n2 - k2,
    {
        assert(all.subrange(0, n1 + k2 + 1).drop_last() =~= all.subrange(0, n1 + k2));
        assert(all.subrange(0, n1 + k2 + 1).last() == *relics@[k2 as int]);
        add_if_new_slug(&mut targets, relics[k2]);
        k2 += 1;
    }
    assert(all.subrange(0, n1 + n2) =~= all);
    proof {
        lemma_dedup_distinct(all);
        lemma_dedup_items_from(all);
        assert forall|i: int, j: int| 0 <= i < j < targets@.len() implies (#[trigger] targets@[i]).slug@
            != (#[trigger] targets@[j]).slug@ by {
            assert(deref_all(targets@)[i] == *targets@[i]);
            assert(deref_all(targets@)[j] == *targets@[j]);
        }
        assert forall|i: int| 0 <= i < prime_parts@.len() implies has_slug(deref_all(targets@), (#[trigger] prime_parts@[i]).slug@) by {
            assert(all[i] == *prime_parts@[i]);
            lemma_dedup_covers(all, i);
        }
        assert forall|i: int| 0 <= i < relics@.len() implies has_slug(deref_all(targets@), (#[trigger] relics@[i]).slug@) by {
            assert(all[n1 + i] == *relics@[i]);
            lemma_dedup_covers(all, n1 + i);
        }
        assert forall|q: int| 0 <= q < targets@.len() implies all.contains(*#[trigger] targets@[q]) by {
            assert(deref_all(targets@)[q] == *targets@[q]);
        }
    }
    targets
}

/// Deduplication leaves no two items with one slug.
pub proof fn lemma_dedup_distinct(s: Seq<ItemShort>)
    ensures
        forall|i: int, j: int|
            0 <= i < j < dedup_by_slug(s).len() ==> #[trigger] dedup_by_slug(s)[i].slug@
                != #[trigger] dedup_by_slug(s)[j].slug@,
    decreases s.len(),
{
    if s.len() > 0 {
        lemma_dedup_distinct(s.drop_last());
        let d = dedup_by_slug(s.drop_last());
        if !has_slug(d, s.last().slug@) {
            assert forall|i: int, j: int|
                0 <= i < j < dedup_by_slug(s).len() implies #[trigger] dedup_by_slug(s)[i].slug@
                != #[trigger] dedup_by_slug(s)[j].slug@ by {
                if j == d.len() {
                    assert(d[i].slug@ != s.last().slug@);
                } else {
                    assert(d[i].slug@ != d[j].slug@);
                }
            }
        }
    }
}

/// Deduplication keeps every slug, each with its first item.
pub proof fn lemma_dedup_keeps_first(s: Seq<ItemShort>, i: int)
    requires
        0 <= i < s.len(),
        forall|k: int| 0 <= k < i ==> #[trigger] s[k].slug@ != s[i].slug@,
    ensures
        dedup_by_slug(s).contains(s[i]),
    decreases s.len(),
{
    let d = dedup_by_slug(s.drop_last());
    if i < s.len() - 1 {
        assert(s.drop_last()[i] == s[i]);
        assert forall|k: int| 0 <= k < i implies #[trigger] s.drop_last()[k].slug@ != s.drop_last()[i].slug@ by {
            assert(s.drop_last()[k] == s[k]);
        }
        lemma_dedup_keeps_first(s.drop_last(), i);
        let q = choose|q: int| 0 <= q < d.len() && d[q] == s[i];
        if !has_slug(d, s.last().slug@) {
            assert(dedup_by_slug(s)[q] == s[i]);
        }
    } else {
        lemma_dedup_items_from(s.drop_last());
        if has_slug(d, s.last().slug@) {
            let q = choose|q: int| 0 <= q < d.len() && #[trigger] d[q].slug@ == s.last().slug@;
            let k = choose|k: int| 0 <= k < s.drop_last().len() && s.drop_last()[k] == d[q];
            assert(s[k].slug@ == s[i].slug@);
            assert(false);
        }
        assert(dedup_by_slug(s)[d.len() as int] == s[i]);
    }
}

/// Deduplication keeps every slug of its input.
pub proof fn lemma_dedup_covers(s: Seq<ItemShort>, i: int)
    requires
        0 <= i < s.len(),
    ensures
        has_slug(dedup_by_slug(s), s[i].slug@),
    decreases s.len(),
{
    let d = dedup_by_slug(s.drop_last());
    if i < s.len() - 1 {
        assert(s.drop_last()[i] == s[i]);
        lemma_dedup_covers(s.drop_last(), i);
        let q = choose|q: int| 0 <= q < d.len() && #[trigger] d[q].slug@ == s[i].slug@;
        if !has_slug(d, s.last().slug@) {
            assert(dedup_by_slug(s)[q] == d[q]);
        }
    } else {
        if !has_slug(d, s.last().slug@) {
            assert(dedup_by_slug(s)[d.len() as int] == s.last());
        }
    }
}

/// Deduplication only keeps items of its input.
pub proof fn lemma_dedup_items_from(s: Seq<ItemShort>)
    ensures
        forall|q: int| 0 <= q < dedup_by_slug(s).len() ==> s.contains(#[trigger] dedup_by_slug(s)[q]),
    decreases s.len(),
{
    if s.len() > 0 {
        lemma_dedup_items_from(s.drop_last());
        let d = dedup_by_slug(s.drop_last());
        assert forall|q: int| 0 <= q < dedup_by_slug(s).len() implies s.contains(#[trigger] dedup_by_slug(s)[q]) by {
            if q < d.len() {
                let k = choose|k: int| 0 <= k < s.drop_last().len() && s.drop_last()[k] == d[q];
                assert(s[k] == d[q]);
            } else {
                assert(s[s.len() - 1] == s.last());
            }
        }
    }
}

/// The targets whose dropsources are not cached yet; `cached[i]` tells
/// whether the file of `targets[i]` exists.
pub open spec fn uncached(targets: Seq<ItemShort>, cached: Seq<bool>) -> Seq<ItemShort>
    decreases targets.len(),
{
    if targets.len() == 0 || cached.len() != targets.len() {
        Seq::empty()
    } else {
        let p = uncached(targets.drop_last(), cached.drop_last());
        if cached.last() {
            p
        } else {
            p.push(targets.last())
        }
    }
}

/// The targets not cached yet are exactly those whose flag is `false`: each
/// kept target comes from an uncached position, each uncached target is kept,
/// and there are as many as there are `false` flags.
pub proof fn lemma_uncached_exact(targets: Seq<ItemShort>, cached: Seq<bool>)
    requires
        cached.len() == targets.len(),
    ensures
        forall|q: int|
            0 <= q < uncached(targets, cached).len() ==> exists|i: int|
                0 <= i < targets.len() && !cached[i] && #[trigger] uncached(targets, cached)[q] == targets[i],
        forall|i: int| 0 <= i < targets.len() && !cached[i] ==> uncached(targets, cached).contains(#[trigger] targets[i]),
        uncached(targets, cached).len() == cached.filter(|c: bool| !c).len(),
    decreases targets.len(),
{
    reveal_with_fuel(Seq::filter, 1);
    if targets.len() > 0 {
        let t = targets.drop_last();
        let c = cached.drop_last();
        lemma_uncached_exact(t, c);
        let u = uncached(t, c);
        let cur = uncached(targets, cached);
        assert(cached.filter(|c: bool| !c) == (if !cached.last() {
            c.filter(|c: bool| !c).push(cached.last())
        } else {
            c.filter(|c: bool| !c)
        }));
        assert forall|q: int| 0 <= q < cur.len() implies exists|i: int|
            0 <= i < targets.len() && !cached[i] && #[trigger] cur[q] == targets[i] by {
            if q < u.len() {
                assert(cur[q] == u[q]);
                let i = choose|i: int| 0 <= i < t.len() && !c[i] && #[trigger] u[q] == t[i];
                assert(targets[i] == t[i]);
                assert(cached[i] == c[i]);
            } else {
                assert(cur[q] == targets[targets.len() - 1]);
            }
        }
        assert forall|i: int| 0 <= i < targets.len() && !cached[i] implies cur.contains(#[trigger] targets[i]) by {
            if i < t.len() {
                assert(targets[i] == t[i]);
                assert(cached[i] == c[i]);
                let q = choose|q: int| 0 <= q < u.len() && u[q] == t[i];
                assert(cur[q] == u[q]);
            } else {
                assert(cur[u.len() as int] == targets[i]);
            }
        }
    }
}

/// All targets when `force` is set, else those not cached yet.
pub fn targets_to_fetch<'a>(targets: &[&'a ItemShort], cached: &[bool], force: bool) -> (r: Vec<
    &'a ItemShort,
>)
    requires
        cached@.len() == targets@.len(),
    ensures
        deref_all(r@) == (if force {
            deref_all(targets@)
        } else {
            uncached(deref_all(targets@), cached@)
        }),
{
    let n = targets.len();
    let mut r: Vec<&'a ItemShort> = Vec::new();
    let mut i: usize = 0;
    let ghost all = deref_all(targets@);
    assert(deref_all(r@) =~= Seq::<ItemShort>::empty());
    while i < n
        invariant
            n == targets@.len(),
            n == cached@.len(),
            all == deref_all(targets@),
            i <= n,
            deref_all(r@) == (if force {
                all.subrange(0, i as int)
            } else {
                uncached(all.subrange(0, i as int), cached@.subrange(0, i as int))
            }),
        decreases n - i,
    {
        let ghost before = deref_all(r@);
        assert(all.subrange(0, i + 1).drop_last() =~= all.subrange(0, i as int));
        assert(cached@.subrange(0, i + 1).drop_last() =~= cached@.subrange(0, i as int));
        if force || !cached[i] {
            r.push(targets[i]);
            assert(deref_all(r@) =~= before.push(all[i as int]));
        }
        i += 1;
        assert(force ==> deref_all(r@) =~= all.subrange(0, i as int));
    }
    assert(all.subrange(0, n as int) =~= all);
    assert(cached@.subrange(0, n as int) =~= cached@);
    r
}

/// Progress is reported every 50 items and after the last one.
pub fn report_progress(i: usize, total: usize) -> (b: bool)
    requires
        i < total,
    ensures
        b == ((i + 1) % 50 == 0 || i + 1 == total),
{
    (i + 1) % 50 == 0 || i + 1 == total
}

// ---------------------------------------------------------------------------
// Ducat values by item id
// ---------------------------------------------------------------------------

/// item id → (display name, ducats) for the prime parts; a later item with
/// the same id replaces an earlier one.
pub open spec fn ducat_index(items: Seq<ItemShort>) -> Map<Seq<char>, (Seq<char>, u32)>
    decreases items.len(),
{
    if items.len() == 0 {
        Map::empty()
    } else {
        let m = ducat_index(items.drop_last());
        let it = items.last();
        if prime_part(it) {
            m.insert(it.id@, (it.display_name(), it.ducats.unwrap()))
        } else {
            m
        }
    }
}

/// Every entry of the index comes from a prime part with that id (its
/// display name and positive ducat value), and every prime part's id is
/// indexed.
pub proof fn lemma_ducat_index_entries(items: Seq<ItemShort>)
    ensures
        forall|k: Seq<char>|
            #[trigger] ducat_index(items).contains_key(k) ==> ducat_index(items)[k].1 > 0 && exists|i: int|
                0 <= i < items.len() && (#[trigger] items[i]).id@ == k && items[i].ducats == Some(
                    ducat_index(items)[k].1,
                ) && items[i].display_name() == ducat_index(items)[k].0,
        forall|i: int|
            0 <= i < items.len() && (#[trigger] items[i]).ducats is Some && items[i].ducats.unwrap() > 0
                ==> ducat_index(items).contains_key(items[i].id@),
    decreases items.len(),
{
    if items.len() > 0 {
        let t = items.drop_last();
        lemma_ducat_index_entries(t);
        let m = ducat_index(items);
        assert forall|k: Seq<char>| #[trigger] m.contains_key(k) implies m[k].1 > 0 && exists|i: int|
            0 <= i < items.len() && (#[trigger] items[i]).id@ == k && items[i].ducats == Some(m[k].1)
                && items[i].display_name() == m[k].0 by {
            let last = items.len() - 1;
            if prime_part(items.last()) && items.last().id@ == k {
                assert(items[last] == items.last());
            } else {
                assert(ducat_index(t).contains_key(k));
                let i = choose|i: int|
                    0 <= i < t.len() && (#[trigger] t[i]).id@ == k && t[i].ducats == Some(ducat_index(t)[k].1)
                        && t[i].display_name() == ducat_index(t)[k].0;
                assert(items[i] == t[i]);
            }
        }
        assert forall|i: int|
            0 <= i < items.len() && (#[trigger] items[i]).ducats is Some && items[i].ducats.unwrap() > 0
            implies m.contains_key(items[i].id@) by {
            if i < t.len() {
                assert(t[i] == items[i]);
            }
        }
    }
}

pub open spec fn named_view(m: Map<Seq<char>, (String, u32)>) -> Map<Seq<char>, (Seq<char>, u32)> {
    m.map_values(|v: (String, u32)| (v.0@, v.1))
}

/// Display name and ducat value of every prime part, by item id.
pub fn ducat_items_by_id(items: &[ItemShort]) -> (r: AssocMap<String, (String, u32)>)
    ensures
        named_view(r@) == ducat_index(items@),
{
    let mut r: AssocMap<String, (String, u32)> = AssocMap::new();
    let n = items.len();
    let mut i: usize = 0;
    assert(named_view(r@) =~= ducat_index(items@.subrange(0, 0)));
    while i < n
        invariant
            n == items@.len(),
            i <= n,
            named_view(r@) == ducat_index(items@.subrange(0, i as int)),
        decreases n - i,
    {
        let item = &items[i];
        assert(items@.subrange(0, i + 1).drop_last() =~= items@.subrange(0, i as int));
        match item.ducats {
            Some(d) => {
                if d > 0 {
                    let ghost before = r@;
                    let name = item.name().to_owned();
                    r.insert(item.id.clone(), (name, d));
                    assert(named_view(r@) =~= named_view(before).insert(
                        item.id@,
                        (item.display_name(), d),
                    ));
                }
            },
            None => {},
        }
        i += 1;
    }
    assert(items@.subrange(0, n as int) =~= items@);
    r
}

} // verus!
