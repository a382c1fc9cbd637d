//! `search`: sell/buy orders by price, quantity and item tags.

use vstd::prelude::*;

use crate::models::{listed, opt_str_view, ItemShort, OrderWithUser};
use crate::seqs::{ends_with, lemma_concat_starts_ends, starts_with};
use crate::text::{
    lemma_split_count, occurrences,
    decimal, i64_decimal, lower_case, signed_decimal, split_at_char, split_on, strings_view,
    to_lower, trim, trimmed, u64_decimal,
};

verus! {

/// The required tags that `--tags` names: its comma-separated pieces, each
/// trimmed and lower-cased; none when the option is absent.
pub open spec fn required_tags(tags: Option<Seq<char>>) -> Seq<Seq<char>> {
    match tags {
        None => Seq::empty(),
        Some(t) => split_on(t, ',').map_values(|p: Seq<char>| lower_case(trim(p))),
    }
}

pub fn parse_tags(tags: Option<&str>) -> (r: Vec<String>)
    ensures
        strings_view(r@) == required_tags(opt_str_view(tags)),
        tags is None ==> r@.len() == 0,
        tags is Some ==> r@.len() == occurrences(tags.unwrap()@, ',') + 1,
{
    proof {
        if tags is Some {
            lemma_split_count(tags.unwrap()@, ',');
        }
    }
    match tags {
        None => {
            let r: Vec<String> = Vec::new();
            assert(strings_view(r@) =~= Seq::<Seq<char>>::empty());
            r
        },
        Some(t) => {
            let pieces = split_at_char(t, ',');
            let ghost want = split_on(t@, ',').map_values(|p: Seq<char>| lower_case(trim(p)));
            let mut r: Vec<String> = Vec::new();
            let n = pieces.len();
            let mut i: usize = 0;
            while i < n
                invariant
                    n == pieces@.len(),
                    strings_view(pieces@) == split_on(t@, ','),
                    want == split_on(t@, ',').map_values(|p: Seq<char>| lower_case(trim(p))),
                    i <= n,
                    strings_view(r@) == want.subrange(0, i as int),
                decreases n - i,
            {
                let ghost before = strings_view(r@);
                let piece = trimmed(pieces[i].as_str());
                let tag = to_lower(piece.as_str());
                r.push(tag);
                assert(strings_view(pieces@)[i as int] == pieces@[i as int]@);
                assert(split_on(t@, ',')[i as int] == pieces@[i as int]@);
                assert(want[i as int] == lower_case(trim(pieces@[i as int]@)));
                assert(strings_view(r@) =~= before.push(tag@));
                assert(strings_view(r@) =~= want.subrange(0, i + 1));
                i += 1;
            }
            assert(want.subrange(0, n as int) =~= want);
            r
        },
    }
}

/// The item carries tag `tag`.
pub open spec fn has_tag(item: ItemShort, tag: Seq<char>) -> bool {
    exists|j: int| 0 <= j < item.tags@.len() && #[trigger] item.tags@[j]@ == tag
}

/// Every required tag is among the item's tags (vacuously so when none is
/// required).
pub open spec fn tags_match(item: ItemShort, required: Seq<String>) -> bool {
    required.len() == 0 || forall|i: int| 0 <= i < required.len() ==> has_tag(item, #[trigger] required[i]@)
}

fn item_has_tag(item: &ItemShort, tag: &String) -> (b: bool)
    ensures
        b == has_tag(*item, tag@),
{
    let n = item.tags.len();
    let mut j: usize = 0;
    while j < n
        invariant
            n == item.tags@.len(),
            j <= n,
            forall|k: int| 0 <= k < j ==> #[trigger] item.tags@[k]@ != tag@,
        decreases n - j,
    {
        if item.tags[j].eq(tag) {
            return true;
        }
        j += 1;
    }
    false
}

/// Tags that must ALL match.
pub fn has_all_tags(item: &ItemShort, required: &[String]) -> (b: bool)
    ensures
        b == tags_match(*item, required@),
        b ==> forall|i: int| 0 <= i < required@.len() ==> listed(item.tags@, #[trigger] required@[i]@),
        !b ==> exists|i: int| 0 <= i < required@.len() && !listed(item.tags@, #[trigger] required@[i]@),
{
    if required.len() == 0 {
        return true;
    }
    let n = required.len();
    let mut i: usize = 0;
    while i < n
        invariant
            n == required@.len(),
            i <= n,
            forall|k: int| 0 <= k < i ==> has_tag(*item, #[trigger] required@[k]@),
        decreases n - i,
    {
        if !item_has_tag(item, &required[i]) {
            return false;
        }
        i += 1;
    }
    true
}

/// An order that `search` reports: its seller is in game, it is of the asked
/// type, costs at most `max_platinum` and offers at least `min_quantity`
/// (bounds inclusive, each only when given).
pub open spec fn search_match(
    order: OrderWithUser,
    order_type: Seq<char>,
    max_platinum: Option<u32>,
    min_quantity: Option<u32>,
) -> bool {
    &&& order.user.status@ == "ingame"@
    &&& order.order_type@ == order_type
    &&& (max_platinum is Some ==> order.platinum <= max_platinum.unwrap())
    &&& (min_quantity is Some ==> order.quantity >= min_quantity.unwrap())
}

/// Each bound is checked on its own: a matching order meets the quantity
/// bound whenever one is given, whatever the price bound, and the price bound
/// whenever one is given, whatever the quantity bound; and it is an order of
/// an in-game seller of the asked type.
pub proof fn lemma_search_bounds(
    order: OrderWithUser,
    order_type: Seq<char>,
    max_platinum: Option<u32>,
    min_quantity: Option<u32>,
)
    ensures
        search_match(order, order_type, max_platinum, min_quantity) && min_quantity is Some
            ==> order.quantity >= min_quantity.unwrap(),
        search_match(order, order_type, max_platinum, min_quantity) && max_platinum is Some
            ==> order.platinum <= max_platinum.unwrap(),
        search_match(order, order_type, max_platinum, min_quantity) ==> order.user.status@
            == "ingame"@,
        search_match(order, order_type, max_platinum, min_quantity) ==> order.order_type@
            == order_type,
{
}

/// Adding a bound keeps exactly the matches that meet it: a price bound
/// filters the matches without a price bound by price, and a quantity bound
/// filters the matches without a quantity bound by quantity.
pub proof fn lemma_search_bounds_independent(
    order: OrderWithUser,
    order_type: Seq<char>,
    max_platinum: Option<u32>,
    min_quantity: Option<u32>,
    max: u32,
    min: u32,
)
    ensures
        search_match(order, order_type, Some(max), min_quantity) == (search_match(
            order,
            order_type,
            None,
            min_quantity,
        ) && order.platinum <= max),
        search_match(order, order_type, max_platinum, Some(min)) == (search_match(
            order,
            order_type,
            max_platinum,
            None,
        ) && order.quantity >= min),
{
}

pub fn order_matches_search(
    order: &OrderWithUser,
    order_type: &String,
    max_platinum: Option<u32>,
    min_quantity: Option<u32>,
) -> (b: bool)
    ensures
        b == search_match(*order, order_type@, max_platinum, min_quantity),
        b && min_quantity is Some ==> order.quantity >= min_quantity.unwrap(),
        b && max_platinum is Some ==> order.platinum <= max_platinum.unwrap(),
        b ==> order.user.status@ == "ingame"@ && order.order_type@ == order_type@,
        order.user.status@ == "ingame"@ && order.order_type@ == order_type@ && (max_platinum is Some
            ==> order.platinum <= max_platinum.unwrap()) && (min_quantity is Some ==> order.quantity
            >= min_quantity.unwrap()) ==> b,
{
    let ingame = "ingame".to_owned();
    if !order.user.status.eq(&ingame) {
        return false;
    }
    if !order.order_type.eq(order_type) {
        return false;
    }
    match max_platinum {
        Some(max) => {
            if order.platinum > max {
                return false;
            }
        },
        None => {},
    }
    match min_quantity {
        Some(min) => {
            if order.quantity < min {
                return false;
            }
        },
        None => {},
    }
    true
}

/// "[{item}] {platinum}:platinum: x{quantity} | {seller} (rep:{reputation}) |
/// https://warframe.market/profile/{seller} | https://warframe.market/items/{slug}"
pub open spec fn search_line(item: ItemShort, order: OrderWithUser) -> Seq<char> {
    "["@ + item.display_name() + "] "@ + decimal(order.platinum as nat) + ":platinum: x"@ + decimal(
        order.quantity as nat,
    ) + " | "@ + order.user.ingame_name@ + " (rep:"@ + signed_decimal(order.user.reputation as int)
        + ") | https://warframe.market/profile/"@ + order.user.ingame_name@
        + " | https://warframe.market/items/"@ + item.slug@
}

/// The line starts with the item's name and the order's price and quantity,
/// and ends with the item's page.
pub proof fn lemma_search_line_frame(item: ItemShort, order: OrderWithUser)
    ensures
        starts_with(
            search_line(item, order),
            "["@ + item.display_name() + "] "@ + decimal(order.platinum as nat) + ":platinum: x"@
                + decimal(order.quantity as nat),
        ),
        ends_with(search_line(item, order), " | https://warframe.market/items/"@ + item.slug@),
{
    let a = "["@ + item.display_name() + "] "@ + decimal(order.platinum as nat) + ":platinum: x"@ + decimal(
        order.quantity as nat,
    );
    let m = " | "@ + order.user.ingame_name@ + " (rep:"@ + signed_decimal(order.user.reputation as int)
        + ") | https://warframe.market/profile/"@ + order.user.ingame_name@;
    let b = " | https://warframe.market/items/"@ + item.slug@;
    assert(search_line(item, order) =~= a + (m + b));
    assert(search_line(item, order) =~= (a + m) + b);
    lemma_concat_starts_ends(a, m + b);
    lemma_concat_starts_ends(a + m, b);
}

/// The line shows the item's name and slug and the order's price, quantity,
/// seller and reputation; nothing else of the order or item changes it.
pub proof fn lemma_search_line_depends_on(i1: ItemShort, o1: OrderWithUser, i2: ItemShort, o2: OrderWithUser)
    requires
        i1.display_name() == i2.display_name(),
        i1.slug@ == i2.slug@,
        o1.platinum == o2.platinum,
        o1.quantity == o2.quantity,
        o1.user.ingame_name@ == o2.user.ingame_name@,
        o1.user.reputation == o2.user.reputation,
    ensures
        search_line(i1, o1) == search_line(i2, o2),
{
}

/// The line that `search` prints for a matching order.
pub fn search_hit_line(item: &ItemShort, order: &OrderWithUser) -> (line: String)
    ensures
        line@ == search_line(*item, *order),
{
    let mut line = "[".to_owned();
    line.append(item.name());
    line.append("] ");
    let p = u64_decimal(order.platinum as u64);
    line.append(p.as_str());
    line.append(":platinum: x");
    let q = u64_decimal(order.quantity as u64);
    line.append(q.as_str());
    line.append(" | ");
    line.append(order.user.ingame_name.as_str());
    line.append(" (rep:");
    let rep = i64_decimal(order.user.reputation as i64);
    line.append(rep.as_str());
    line.append(") | https://warframe.market/profile/");
    line.append(order.user.ingame_name.as_str());
    line.append(" | https://warframe.market/items/");
    line.append(item.slug.as_str());
    assert(line@ =~= search_line(*item, *order));
    line
}

} // verus!
