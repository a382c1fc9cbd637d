//! `listen`: decisions taken on the live order stream of the warframe.market
//! WebSocket.

use vstd::prelude::*;

use crate::assoc::AssocMap;
use crate::models::OrderWithUser;
use crate::text::{contains_str, decimal, has_substring, u64_decimal};

verus! {

/// What the socket delivered.
pub enum SocketEvent {
    /// A text frame.
    Text,
    /// The server closed the connection.
    Closed,
    /// Reading from the socket failed.
    Failed,
    /// Anything else (pings, pongs, binary frames).
    Other,
}

/// What to do with it.
pub enum SocketStep {
    /// Decode the frame and consider it.
    Handle,
    /// Wait for the next event.
    Skip,
    /// Stop listening.
    Stop,
}

pub open spec fn socket_step_spec(e: SocketEvent) -> SocketStep {
    match e {
        SocketEvent::Text => SocketStep::Handle,
        SocketEvent::Closed => SocketStep::Stop,
        SocketEvent::Failed => SocketStep::Stop,
        SocketEvent::Other => SocketStep::Skip,
    }
}

/// Text frames are handled, a close or an error ends the session, anything
/// else is skipped.
pub fn socket_step(e: &SocketEvent) -> (s: SocketStep)
    ensures
        s == socket_step_spec(*e),
        *e is Closed || *e is Failed ==> s is Stop,
        *e is Text ==> s is Handle,
        *e is Other ==> s is Skip,
{
    match e {
        SocketEvent::Text => SocketStep::Handle,
        SocketEvent::Closed => SocketStep::Stop,
        SocketEvent::Failed => SocketStep::Stop,
        SocketEvent::Other => SocketStep::Skip,
    }
}

/// Only new-order events are handled: their route mentions "newOrder".
pub fn is_new_order_route(route: &str) -> (b: bool)
    ensures
        b == has_substring(route@, "newOrder"@),
{
    contains_str(route, "newOrder")
}

/// The seller is in game; both spellings occur ("in_game" in the socket
/// docs, "ingame" in the REST API).
pub open spec fn live_status(status: Seq<char>) -> bool {
    status == "ingame"@ || status == "in_game"@
}

/// A live sell order of an in-game seller, for a prime part that
/// `items_by_id` knows, at a positive price.
pub open spec fn live_candidate(order: OrderWithUser, items_by_id: Map<Seq<char>, (String, u32)>) -> bool {
    &&& order.order_type@ == "sell"@
    &&& live_status(order.user.status@)
    &&& items_by_id.contains_key(order.item_id@)
    &&& order.platinum != 0
}

/// The (name, ducats) of the item of a live order when the order is a
/// candidate; whether its ducats-per-platinum ratio is high enough is judged
/// on top of this.
pub fn live_order_item<'a>(order: &OrderWithUser, items_by_id: &'a AssocMap<String, (String, u32)>) -> (r:
    Option<&'a (String, u32)>)
    ensures
        r is Some == live_candidate(*order, items_by_id@),
        r is Some ==> *r.unwrap() == items_by_id@[order.item_id@],
        r is Some ==> order.order_type@ == "sell"@ && order.platinum > 0 && items_by_id@.contains_key(
            order.item_id@,
        ) && (order.user.status@ == "ingame"@ || order.user.status@ == "in_game"@),
        order.order_type@ == "sell"@ && order.platinum > 0 && items_by_id@.contains_key(order.item_id@)
            && (order.user.status@ == "ingame"@ || order.user.status@ == "in_game"@) ==> r is Some,
{
    let sell = "sell".to_owned();
    if !order.order_type.eq(&sell) {
        return None;
    }
    let ingame = "ingame".to_owned();
    let in_game = "in_game".to_owned();
    if !order.user.status.eq(&ingame) && !order.user.status.eq(&in_game) {
        return None;
    }
    match items_by_id.get(&order.item_id) {
        Some(entry) => {
            if order.platinum == 0 {
                None
            } else {
                Some(entry)
            }
        },
        None => None,
    }
}

/// "/w {seller} Hi! I'd like to buy: 1x {item} ({platinum}:platinum:) (warframe.market via wfmq)"
pub open spec fn live_whisper_text(order: OrderWithUser, item_name: Seq<char>) -> Seq<char> {
    "/w "@ + order.user.ingame_name@ + " Hi! I'd like to buy: 1x "@ + item_name + " ("@ + decimal(
        order.platinum as nat,
    ) + ":platinum:) (warframe.market via wfmq)"@
}

/// The live whisper always offers one unit: orders that differ only in their
/// quantity (or anything but seller name and price) get the same whisper.
pub proof fn lemma_live_whisper_ignores_quantity(a: OrderWithUser, b: OrderWithUser, item_name: Seq<char>)
    requires
        a.user.ingame_name@ == b.user.ingame_name@,
        a.platinum == b.platinum,
    ensures
        live_whisper_text(a, item_name) == live_whisper_text(b, item_name),
{
}

/// The live whisper starts by greeting the seller and asking for one unit.
pub proof fn lemma_live_whisper_one_unit(order: OrderWithUser, item_name: Seq<char>)
    ensures
        live_whisper_text(order, item_name).len() >= ("/w "@ + order.user.ingame_name@
            + " Hi! I'd like to buy: 1x "@).len(),
        live_whisper_text(order, item_name).subrange(
            0,
            ("/w "@ + order.user.ingame_name@ + " Hi! I'd like to buy: 1x "@).len() as int,
        ) == "/w "@ + order.user.ingame_name@ + " Hi! I'd like to buy: 1x "@,
{
    let p = "/w "@ + order.user.ingame_name@ + " Hi! I'd like to buy: 1x "@;
    let t = live_whisper_text(order, item_name);
    let rest = item_name + " ("@ + decimal(order.platinum as nat) + ":platinum:) (warframe.market via wfmq)"@;
    assert(t =~= p + rest);
    assert(t.subrange(0, p.len() as int) =~= p);
}

/// The whisper that offers to buy one unit of a live order.
pub fn live_whisper(order: &OrderWithUser, item_name: &str) -> (msg: String)
    ensures
        msg@ == live_whisper_text(*order, item_name@),
        msg@.len() >= ("/w "@ + order.user.ingame_name@ + " Hi! I'd like to buy: 1x "@).len(),
        msg@.subrange(0, ("/w "@ + order.user.ingame_name@ + " Hi! I'd like to buy: 1x "@).len() as int)
            == "/w "@ + order.user.ingame_name@ + " Hi! I'd like to buy: 1x "@,
{
    proof {
        lemma_live_whisper_one_unit(*order, item_name@);
    }
    let mut msg = "/w ".to_owned();
    msg.append(order.user.ingame_name.as_str());
    msg.append(" Hi! I'd like to buy: 1x ");
    msg.append(item_name);
    msg.append(" (");
    let p = u64_decimal(order.platinum as u64);
    msg.append(p.as_str());
    msg.append(":platinum:) (warframe.market via wfmq)");
    assert(msg@ =~= live_whisper_text(*order, item_name@));
    msg
}

} // verus!
