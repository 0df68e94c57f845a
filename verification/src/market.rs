use vstd::prelude::*;

use crate::corporation::random_bool;
use crate::exchange::{ask, bid, limit_ask, limit_bid, MarketOrder, OrderType};
use crate::ledger::Ledger;

verus! {

/// The balance each simulated trader starts with.
pub const INITIAL_MONEY: u64 = 1000000;

/// The largest quantity a noise trader orders.
pub const MAX_NOISE_QUANTITY: u64 = 100;

/// How far the mid price may stray from the true value before a
/// fundamentalist trades.
pub const THRESHOLD: i64 = 50;

/// The quantity a fundamentalist orders.
pub const FUNDAMENTAL_QUANTITY: u32 = 10;

/// A sampled quantity, capped at `MAX_NOISE_QUANTITY`.
pub open spec fn capped_quantity(raw: u64) -> u32 {
    if raw < MAX_NOISE_QUANTITY {
        raw as u32
    } else {
        MAX_NOISE_QUANTITY as u32
    }
}

/// Caps a sampled quantity (the whole part of a log-normal draw) at
/// `MAX_NOISE_QUANTITY`.
pub fn clamp_quantity(raw: u64) -> (q: u32)
    ensures
        q == capped_quantity(raw),
{
    if raw < MAX_NOISE_QUANTITY {
        raw as u32
    } else {
        MAX_NOISE_QUANTITY as u32
    }
}

/// A noise trader's order for a sampled quantity and a coin: a market order
/// for the capped quantity, an ask when the coin says so and a bid otherwise.
pub open spec fn noise_market_order(raw_quantity: u64, is_ask: bool, is_canceled: usize, money_address: usize) -> MarketOrder {
    MarketOrder {
        order_type: if is_ask { OrderType::Ask } else { OrderType::Bid },
        price: 0,
        is_canceled,
        quantity: capped_quantity(raw_quantity),
        money_address,
    }
}

/// A noise trader's order for a sampled quantity and a side, as
/// [`noise_market_order`] says.
pub fn noise_order(raw_quantity: u64, is_ask: bool, is_canceled: usize, money_address: usize, ledger: &Ledger) -> (order: MarketOrder)
    requires
        is_canceled < ledger@.canceled.len(),
        !ledger@.canceled[is_canceled as int],
    ensures
        order == noise_market_order(raw_quantity, is_ask, is_canceled, money_address),
{
    let quantity = clamp_quantity(raw_quantity);
    if is_ask {
        ask(is_canceled, quantity, money_address, ledger)
    } else {
        bid(is_canceled, quantity, money_address, ledger)
    }
}

/// A noise trader's order for a sampled quantity, its side decided by a coin:
/// a market order for the capped quantity, on one side or the other.
pub fn noise(raw_quantity: u64, is_canceled: usize, money_address: usize, ledger: &Ledger) -> (order: MarketOrder)
    requires
        is_canceled < ledger@.canceled.len(),
        !ledger@.canceled[is_canceled as int],
    ensures
        order == noise_market_order(raw_quantity, order.order_type == OrderType::Ask, is_canceled, money_address),
        order.price == 0,
        order.quantity == capped_quantity(raw_quantity),
        order.is_canceled == is_canceled,
        order.money_address == money_address,
{
    let is_ask = random_bool();
    noise_order(raw_quantity, is_ask, is_canceled, money_address, ledger)
}

/// The true value read as a signed number, as a cast to `i64` reads it.
pub open spec fn signed_price(true_price: u64) -> int {
    if true_price <= i64::MAX {
        true_price as int
    } else {
        true_price - 0x1_0000_0000_0000_0000
    }
}

/// The mid price between two levels, rounded down.
pub open spec fn mid_price(ask_index: usize, bid_index: usize) -> int {
    (ask_index + bid_index) / 2
}

/// How far the mid price lies above the true value.
pub open spec fn mispricing(ask_index: usize, bid_index: usize, true_price: u64) -> int {
    mid_price(ask_index, bid_index) - signed_price(true_price)
}

/// What a fundamentalist does on seeing the book's markers and the true value:
/// nothing while the mid price lies within `THRESHOLD` of the true value;
/// otherwise a limit order of `FUNDAMENTAL_QUANTITY` at the true value, an ask
/// when the asset is overpriced, a bid when it is underpriced.
pub open spec fn fundamental_order(
    ask_index: usize,
    bid_index: usize,
    true_price: u64,
    is_canceled: usize,
    money_address: usize,
) -> Option<MarketOrder> {
    let d = mispricing(ask_index, bid_index, true_price);
    if -THRESHOLD <= d <= THRESHOLD {
        None
    } else {
        Some(MarketOrder {
            order_type: if d > 0 { OrderType::Ask } else { OrderType::Bid },
            price: true_price,
            is_canceled,
            quantity: FUNDAMENTAL_QUANTITY,
            money_address,
        })
    }
}

/// One look of a fundamentalist at the market, as [`fundamental_order`] says.
/// The sum of the two levels must fit in a `usize`, and the mispricing, in
/// the signed reading of the true value, must lie strictly inside the range
/// of an `i64`.
pub fn fundamentalist(
    ask_index: usize,
    bid_index: usize,
    true_price: u64,
    is_canceled: usize,
    money_address: usize,
    ledger: &Ledger,
) -> (order: Option<MarketOrder>)
    requires
        ask_index + bid_index <= usize::MAX,
        i64::MIN < mispricing(ask_index, bid_index, true_price) <= i64::MAX,
        is_canceled < ledger@.canceled.len(),
        !ledger@.canceled[is_canceled as int],
    ensures
        order == fundamental_order(ask_index, bid_index, true_price, is_canceled, money_address),
{
    let mid: usize = (ask_index + bid_index) / 2;
    assert(mid <= i64::MAX);
    let mid_price: i64 = mid as i64;
    let signed_true: i64 = if true_price <= i64::MAX as u64 {
        true_price as i64
    } else {
        (true_price - 0x8000_0000_0000_0000u64) as i64 + i64::MIN
    };
    let d: i64 = mid_price - signed_true;
    let distance: i64 = if d < 0 { -d } else { d };
    if distance > THRESHOLD {
        if mid_price > signed_true {
            Some(limit_ask(true_price, is_canceled, FUNDAMENTAL_QUANTITY, money_address, ledger))
        } else {
            Some(limit_bid(true_price, is_canceled, FUNDAMENTAL_QUANTITY, money_address, ledger))
        }
    } else {
        None
    }
}

/// A noise trader never orders more than `MAX_NOISE_QUANTITY`, and orders
/// exactly the sampled quantity up to that cap.
pub proof fn noise_quantity_capped(raw: u64)
    ensures
        capped_quantity(raw) <= MAX_NOISE_QUANTITY,
        raw <= MAX_NOISE_QUANTITY ==> capped_quantity(raw) == raw,
{
}

/// A fundamentalist leans against the mispricing: it trades only when the mid
/// price strays more than `THRESHOLD` from the true value, always at the true
/// value and for `FUNDAMENTAL_QUANTITY` on either side, with its own handles,
/// selling when the asset is overpriced and buying when it is underpriced.
pub proof fn fundamentalist_trades_toward_value(
    ask_index: usize,
    bid_index: usize,
    true_price: u64,
    is_canceled: usize,
    money_address: usize,
)
    ensures
        ({
            let o = fundamental_order(ask_index, bid_index, true_price, is_canceled, money_address);
            let d = mispricing(ask_index, bid_index, true_price);
            &&& o is Some <==> (d > THRESHOLD || d < -THRESHOLD)
            &&& o is Some ==> {
                &&& o->0.price == true_price
                &&& o->0.quantity == FUNDAMENTAL_QUANTITY
                &&& o->0.is_canceled == is_canceled
                &&& o->0.money_address == money_address
                &&& (o->0.order_type == OrderType::Ask <==> d > 0)
                &&& (o->0.order_type == OrderType::Bid <==> d < 0)
            }
        }),
{
}

/// A noise trader's side is its coin: the order is an ask exactly when the
/// coin says ask, and a bid otherwise; it is always a market order (price 0)
/// for the sampled quantity capped at `MAX_NOISE_QUANTITY`, with the trader's
/// own handles. The two coins give the same order but for its side.
pub proof fn noise_side_follows_coin(raw_quantity: u64, is_ask: bool, is_canceled: usize, money_address: usize)
    ensures
        ({
            let o = noise_market_order(raw_quantity, is_ask, is_canceled, money_address);
            let other = noise_market_order(raw_quantity, !is_ask, is_canceled, money_address);
            &&& (o.order_type == OrderType::Ask <==> is_ask)
            &&& (o.order_type == OrderType::Bid <==> !is_ask)
            &&& o.order_type != other.order_type
            &&& o.price == 0
            &&& o.quantity <= MAX_NOISE_QUANTITY
            &&& (raw_quantity <= MAX_NOISE_QUANTITY ==> o.quantity == raw_quantity)
            &&& o.quantity == other.quantity
            &&& o.is_canceled == is_canceled
            &&& o.money_address == money_address
        }),
{
}

} // verus!
