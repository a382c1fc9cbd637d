//! `ducats`: sellers who have enough ducat-efficient items to justify one
//! trade slot, and the whisper that buys them.

use vstd::prelude::*;

use crate::assoc::AssocMap;
use crate::models::OrderWithUser;
use crate::seqs::{ends_with, lemma_concat_starts_ends, lemma_select_complete, lemma_select_sound, select, starts_with};
use crate::text::{decimal, u64_decimal};

verus! {

/// One listing of one seller that passed the filters.
pub struct Hit {
    pub item_name: String,
    pub platinum: u32,
    pub quantity: u32,
    pub ducats: u32,
}

/// A sell order of an in-game seller that asks a positive price.  (Whether
/// its ducats-per-platinum ratio is high enough is judged on top of this.)
pub open spec fn ducat_candidate(order: OrderWithUser) -> bool {
    &&& order.order_type@ == "sell"@
    &&& order.user.status@ == "ingame"@
    &&& order.platinum != 0
}

/// A ducat candidate is a sell order of a seller whose status is exactly
/// "ingame", at a positive price; and every such order is one, whatever its
/// quantity, item or seller name.
pub proof fn lemma_ducat_candidate_in_game(order: OrderWithUser)
    ensures
        ducat_candidate(order) ==> order.user.status@ == "ingame"@,
        ducat_candidate(order) ==> order.order_type@ == "sell"@,
        ducat_candidate(order) ==> order.platinum > 0,
        order.order_type@ == "sell"@ && order.user.status@ == "ingame"@ && order.platinum > 0
            ==> ducat_candidate(order),
{
}

/// Whether an order is a candidate depends on its type, its seller's status
/// and its price only.
pub proof fn lemma_ducat_candidate_depends_on_type_status_price(a: OrderWithUser, b: OrderWithUser)
    requires
        a.order_type@ == b.order_type@,
        a.user.status@ == b.user.status@,
        a.platinum == b.platinum,
    ensures
        ducat_candidate(a) == ducat_candidate(b),
{
}

pub fn is_ducat_candidate(order: &OrderWithUser) -> (b: bool)
    ensures
        b == ducat_candidate(*order),
        b ==> order.user.status@ == "ingame"@,
        b ==> order.order_type@ == "sell"@,
        b ==> order.platinum > 0,
        order.order_type@ == "sell"@ && order.user.status@ == "ingame"@ && order.platinum > 0 ==> b,
{
    let sell = "sell".to_owned();
    let ingame = "ingame".to_owned();
    order.order_type.eq(&sell) && order.user.status.eq(&ingame) && order.platinum != 0
}

pub open spec fn quantity_sum(hits: Seq<Hit>) -> int
    decreases hits.len(),
{
    if hits.len() == 0 {
        0
    } else {
        quantity_sum(hits.drop_last()) + hits.last().quantity
    }
}

pub open spec fn platinum_sum(hits: Seq<Hit>) -> int
    decreases hits.len(),
{
    if hits.len() == 0 {
        0
    } else {
        platinum_sum(hits.drop_last()) + hits.last().platinum * hits.last().quantity
    }
}

pub open spec fn ducat_sum(hits: Seq<Hit>) -> int
    decreases hits.len(),
{
    if hits.len() == 0 {
        0
    } else {
        ducat_sum(hits.drop_last()) + hits.last().ducats * hits.last().quantity
    }
}

/// The totals add up over concatenation: each total is the sum over the
/// hits, in any grouping.
pub proof fn lemma_sums_additive(a: Seq<Hit>, b: Seq<Hit>)
    ensures
        quantity_sum(a + b) == quantity_sum(a) + quantity_sum(b),
        platinum_sum(a + b) == platinum_sum(a) + platinum_sum(b),
        ducat_sum(a + b) == ducat_sum(a) + ducat_sum(b),
    decreases b.len(),
{
    if b.len() > 0 {
        lemma_sums_additive(a, b.drop_last());
        assert((a + b).drop_last() =~= a + b.drop_last());
    } else {
        assert(a + b =~= a);
    }
}

/// A single hit's totals are its own quantity, price × quantity and
/// ducats × quantity.
pub proof fn lemma_sums_single(h: Hit)
    ensures
        quantity_sum(seq![h]) == h.quantity,
        platinum_sum(seq![h]) == h.platinum * h.quantity,
        ducat_sum(seq![h]) == h.ducats * h.quantity,
{
    let s = seq![h];
    assert(s.drop_last() =~= Seq::<Hit>::empty());
    assert(s.last() == h);
    assert(quantity_sum(s) == quantity_sum(s.drop_last()) + s.last().quantity);
    assert(platinum_sum(s) == platinum_sum(s.drop_last()) + s.last().platinum * s.last().quantity);
    assert(ducat_sum(s) == ducat_sum(s.drop_last()) + s.last().ducats * s.last().quantity);
}

/// Items, platinum and ducats that one seller's hits add up to.
pub struct SellerTotals {
    pub quantity: u128,
    pub platinum: u128,
    pub ducats: u128,
}

proof fn lemma_product_bound(a: int, b: int)
    requires
        0 <= a <= u32::MAX,
        0 <= b <= u32::MAX,
    ensures
        0 <= a * b <= u64::MAX,
{
    assert(a * b <= u32::MAX * u32::MAX) by (nonlinear_arith)
        requires
            0 <= a <= u32::MAX,
            0 <= b <= u32::MAX,
    ;
}

/// Total quantity, total platinum (price × quantity) and total ducats
/// (ducats × quantity) of a seller's hits.
pub fn seller_totals(hits: &[Hit]) -> (t: SellerTotals)
    ensures
        t.quantity == quantity_sum(hits@),
        t.platinum == platinum_sum(hits@),
        t.ducats == ducat_sum(hits@),
{
    let n = hits.len();
    let mut q: u128 = 0;
    let mut p: u128 = 0;
    let mut d: u128 = 0;
    let mut i: usize = 0;
    while i < n
        invariant
            n == hits@.len(),
            i <= n,
            n <= u64::MAX,
            q == quantity_sum(hits@.subrange(0, i as int)),
            p == platinum_sum(hits@.subrange(0, i as int)),
            d == ducat_sum(hits@.subrange(0, i as int)),
            q <= i * u64::MAX,
            p <= i * u64::MAX,
            d <= i * u64::MAX,
        decreases n - i,
    {
        let h = &hits[i];
        assert(hits@.subrange(0, i + 1).drop_last() =~= hits@.subrange(0, i as int));
        proof {
            lemma_product_bound(h.platinum as int, h.quantity as int);
            lemma_product_bound(h.ducats as int, h.quantity as int);
            assert((i + 1) * u64::MAX == i * u64::MAX + u64::MAX) by (nonlinear_arith);
            assert(i * u64::MAX <= u64::MAX * u64::MAX) by (nonlinear_arith)
                requires
                    i <= u64::MAX,
            ;
        }
        q = q + h.quantity as u128;
        p = p + (h.platinum as u128) * (h.quantity as u128);
        d = d + (h.ducats as u128) * (h.quantity as u128);
        i += 1;
    }
    assert(hits@.subrange(0, n as int) =~= hits@);
    SellerTotals { quantity: q, platinum: p, ducats: d }
}

/// A seller qualifies with at least `min_quantity` items across its hits.
pub open spec fn seller_qualifies(entry: (String, Vec<Hit>), min_quantity: u32) -> bool {
    quantity_sum(entry.1@) >= min_quantity
}

/// The sellers, in first-hit order, whose hits add up to at least
/// `min_quantity` items.
pub fn qualifying_sellers(by_seller: AssocMap<String, Vec<Hit>>, min_quantity: u32) -> (r: Vec<
    (String, Vec<Hit>),
>)
    ensures
        r@ == select(by_seller.items(), |e: (String, Vec<Hit>)| seller_qualifies(e, min_quantity)),
        forall|i: int| 0 <= i < r@.len() ==> quantity_sum((#[trigger] r@[i]).1@) >= min_quantity,
        forall|i: int| 0 <= i < r@.len() ==> by_seller.items().contains(#[trigger] r@[i]),
        forall|i: int|
            0 <= i < by_seller.items().len() && quantity_sum((#[trigger] by_seller.items()[i]).1@)
                >= min_quantity ==> r@.contains(by_seller.items()[i]),
{
    let ghost p = |e: (String, Vec<Hit>)| seller_qualifies(e, min_quantity);
    let mut entries = by_seller.into_items();
    let ghost all = entries@;
    let mut kept: Vec<(String, Vec<Hit>)> = Vec::new();
    // Walk from the back so that entries can be moved out with `pop`.
    let mut rest: Vec<(String, Vec<Hit>)> = Vec::new();
    let n = entries.len();
    let mut k: usize = n;
    while k > 0
        invariant
            k <= n,
            n == all.len(),
            entries@ == all.subrange(0, k as int),
            rest@ == all.subrange(k as int, n as int).reverse(),
        decreases k,
    {
        let e = entries.pop().unwrap();
        rest.push(e);
        k -= 1;
        assert(rest@ =~= all.subrange(k as int, n as int).reverse());
        assert(entries@ =~= all.subrange(0, k as int));
    }
    let mut i: usize = 0;
    assert(kept@ =~= select(all.subrange(0, 0), p));
    while i < n
        invariant
            i <= n,
            n == all.len(),
            p == (|e: (String, Vec<Hit>)| seller_qualifies(e, min_quantity)),
            rest@ == all.subrange(i as int, n as int).reverse(),
            kept@ == select(all.subrange(0, i as int), p),
        decreases n - i,
    {
        let e = rest.pop().unwrap();
        assert(e == all[i as int]);
        assert(all.subrange(0, i + 1).drop_last() =~= all.subrange(0, i as int));
        let t = seller_totals(e.1.as_slice());
        if t.quantity >= min_quantity as u128 {
            kept.push(e);
        }
        i += 1;
        assert(rest@ =~= all.subrange(i as int, n as int).reverse());
    }
    assert(all.subrange(0, n as int) =~= all);
    proof {
        lemma_select_sound(all, p);
        assert forall|q: int| 0 <= q < kept@.len() implies quantity_sum((#[trigger] kept@[q]).1@) >= min_quantity by {
            assert(p(select(all, p)[q]));
        }
        assert forall|q: int|
            0 <= q < all.len() && quantity_sum((#[trigger] all[q]).1@) >= min_quantity implies kept@.contains(all[q]) by {
            assert(p(all[q]));
            lemma_select_complete(all, p, q);
        }
    }
    kept
}

/// "{quantity}x {item} ({platinum}:platinum:)"
pub open spec fn hit_text(h: Hit) -> Seq<char> {
    decimal(h.quantity as nat) + "x "@ + h.item_name@ + " ("@ + decimal(h.platinum as nat)
        + ":platinum:)"@
}

/// The texts of `hits`, separated by ", ".
pub open spec fn joined_hits(hits: Seq<Hit>) -> Seq<char>
    decreases hits.len(),
{
    if hits.len() == 0 {
        Seq::empty()
    } else if hits.len() == 1 {
        hit_text(hits[0])
    } else {
        joined_hits(hits.drop_last()) + ", "@ + hit_text(hits.last())
    }
}

/// "/w {seller} Hi! I'd like to buy: {hits} (warframe.market via wfmq)"
pub open spec fn whisper_text(username: Seq<char>, hits: Seq<Hit>) -> Seq<char> {
    "/w "@ + username + " Hi! I'd like to buy: "@ + joined_hits(hits) + " (warframe.market via wfmq)"@
}

/// A whisper for one hit names its quantity, item and price in full.
pub proof fn lemma_whisper_one_hit(username: Seq<char>, h: Hit)
    ensures
        whisper_text(username, seq![h]) == "/w "@ + username + " Hi! I'd like to buy: "@ + decimal(
            h.quantity as nat,
        ) + "x "@ + h.item_name@ + " ("@ + decimal(h.platinum as nat) + ":platinum:)"@ + " (warframe.market via wfmq)"@,
{
    assert(seq![h].len() == 1);
    assert(seq![h][0] == h);
    assert(whisper_text(username, seq![h]) =~= "/w "@ + username + " Hi! I'd like to buy: "@ + decimal(
        h.quantity as nat,
    ) + "x "@ + h.item_name@ + " ("@ + decimal(h.platinum as nat) + ":platinum:)"@ + " (warframe.market via wfmq)"@);
}

/// Every whisper greets the seller by name and ends with the signature.
pub proof fn lemma_whisper_frame(username: Seq<char>, hits: Seq<Hit>)
    ensures
        starts_with(whisper_text(username, hits), "/w "@ + username + " Hi! I'd like to buy: "@),
        ends_with(whisper_text(username, hits), " (warframe.market via wfmq)"@),
{
    let a = "/w "@ + username + " Hi! I'd like to buy: "@;
    let b = joined_hits(hits) + " (warframe.market via wfmq)"@;
    assert(whisper_text(username, hits) =~= a + b);
    lemma_concat_starts_ends(a, b);
    lemma_concat_starts_ends(a + joined_hits(hits), " (warframe.market via wfmq)"@);
    assert(whisper_text(username, hits) =~= (a + joined_hits(hits)) + " (warframe.market via wfmq)"@);
}

/// The whisper depends on each hit's item name, quantity and price only,
/// not on its ducat value.
pub proof fn lemma_whisper_ignores_ducats(username: Seq<char>, a: Seq<Hit>, b: Seq<Hit>)
    requires
        a.len() == b.len(),
        forall|i: int|
            0 <= i < a.len() ==> (#[trigger] a[i]).item_name@ == b[i].item_name@ && a[i].quantity
                == b[i].quantity && a[i].platinum == b[i].platinum,
    ensures
        whisper_text(username, a) == whisper_text(username, b),
    decreases a.len(),
{
    lemma_joined_ignores_ducats(a, b);
}

proof fn lemma_joined_ignores_ducats(a: Seq<Hit>, b: Seq<Hit>)
    requires
        a.len() == b.len(),
        forall|i: int|
            0 <= i < a.len() ==> (#[trigger] a[i]).item_name@ == b[i].item_name@ && a[i].quantity
                == b[i].quantity && a[i].platinum == b[i].platinum,
    ensures
        joined_hits(a) == joined_hits(b),
    decreases a.len(),
{
    if a.len() > 1 {
        assert forall|i: int| 0 <= i < a.drop_last().len() implies (#[trigger] a.drop_last()[i]).item_name@
            == b.drop_last()[i].item_name@ && a.drop_last()[i].quantity == b.drop_last()[i].quantity
            && a.drop_last()[i].platinum == b.drop_last()[i].platinum by {
            assert(a[i] == a.drop_last()[i]);
        }
        lemma_joined_ignores_ducats(a.drop_last(), b.drop_last());
        assert(a[a.len() - 1] == a.last());
    } else if a.len() == 1 {
        assert(a[0].item_name@ == b[0].item_name@);
    }
}

fn append_hit(s: &mut String, h: &Hit)
    ensures
        final(s)@ == old(s)@ + hit_text(*h),
{
    let q = u64_decimal(h.quantity as u64);
    s.append(q.as_str());
    s.append("x ");
    s.append(h.item_name.as_str());
    s.append(" (");
    let p = u64_decimal(h.platinum as u64);
    s.append(p.as_str());
    s.append(":platinum:)");
    assert(s@ =~= old(s)@ + hit_text(*h));
}

/// The in-game whisper that offers to buy all of a seller's hits.
pub fn whisper_message(username: &str, hits: &[Hit]) -> (msg: String)
    ensures
        msg@ == whisper_text(username@, hits@),
{
    let mut msg = "/w ".to_owned();
    msg.append(username);
    msg.append(" Hi! I'd like to buy: ");
    let ghost head = msg@;
    let n = hits.len();
    let mut i: usize = 0;
    assert(msg@ =~= head + joined_hits(hits@.subrange(0, 0)));
    while i < n
        invariant
            n == hits@.len(),
            i <= n,
            msg@ == head + joined_hits(hits@.subrange(0, i as int)),
        decreases n - i,
    {
        let ghost before = msg@;
        assert(hits@.subrange(0, i + 1).drop_last() =~= hits@.subrange(0, i as int));
        if i > 0 {
            msg.append(", ");
        }
        append_hit(&mut msg, &hits[i]);
        proof {
            if i == 0 {
                assert(hits@.subrange(0, 1)[0] == hits@[0]);
                assert(msg@ =~= head + joined_hits(hits@.subrange(0, 1)));
            } else {
                assert(msg@ =~= head + joined_hits(hits@.subrange(0, i + 1)));
            }
        }
        i += 1;
    }
    assert(hits@.subrange(0, n as int) =~= hits@);
    msg.append(" (warframe.market via wfmq)");
    assert(msg@ =~= whisper_text(username@, hits@));
    msg
}

/// Warframe may truncate a chat message longer than 255 bytes.
pub fn message_too_long(msg: &str) -> (b: bool)
    ensures
        b == (msg.len() > 255),
{
    msg.len() > 255
}

} // verus!
