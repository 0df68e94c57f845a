use vstd::prelude::*;

use crate::exchange::QueueEntry;
use crate::ledger::transfer_money;

verus! {

/// Why the matching engine could not finish an order: it would index a price
/// level outside the book, or step below price 0.
#[derive(Clone, Copy, Debug, PartialEq, Eq, Structural)]
pub enum MatchError {
    IndexOutOfBook,
    IndexUnderflow,
}

/// How a walk along one side of the book ended.
#[derive(Clone, Copy, Debug, PartialEq, Eq, Structural)]
pub enum SweepEnd {
    /// The payer of the next trade could not afford it: the order is dropped.
    Unaffordable,
    /// The order's quantity was used up at the current level.
    Filled,
    /// The walk passed the order's price: what is left of the order, if
    /// anything, rests in the book.
    Exhausted,
    /// The walk cannot go on.
    Fault(MatchError),
}

/// The state of a walk: the queues of the side being walked, the balances,
/// the level reached and the quantity the incoming order has left.
pub struct Sweep {
    pub queues: Seq<Seq<QueueEntry>>,
    pub money: Seq<u64>,
    pub index: int,
    pub remaining: u32,
}

/// Whether the walk has passed the order's price: an ask walks down the bids
/// while the level is at least its price, a bid walks up the asks while the
/// level is at most its price.
pub open spec fn past_price(index: int, price: int, ask: bool) -> bool {
    if ask {
        index < price
    } else {
        index > price
    }
}

/// The next level of the walk.
pub open spec fn next_level(index: int, ask: bool) -> int {
    if ask {
        index - 1
    } else {
        index + 1
    }
}

/// A queue without its oldest order.
pub open spec fn without_front(q: Seq<QueueEntry>) -> Seq<QueueEntry> {
    q.subrange(1, q.len() as int)
}

/// The money that changes hands when `quantity` trades at level `index`.
pub open spec fn trade_value(quantity: u32, index: int) -> int {
    quantity * index
}

/// The measure that the walk's level brings down on each move.
pub open spec fn level_measure(s: Sweep, ask: bool) -> int {
    if ask {
        s.index
    } else {
        s.queues.len() - s.index
    }
}

/// A queue whose oldest order now holds `quantity`.
pub open spec fn with_front_quantity(q: Seq<QueueEntry>, quantity: u32) -> Seq<QueueEntry> {
    q.update(0, QueueEntry { quantity, ..q[0] })
}

/// The smaller of two quantities.
pub open spec fn min_quantity(a: u32, b: u32) -> u32 {
    if a < b {
        a
    } else {
        b
    }
}

/// The walk of an incoming order of side `ask` along the opposite side of
/// the book, from level `s.index` towards `price`, trading against the oldest
/// live order of each level first. `taker` is the incoming order's balance and
/// `canceled` the cancel flags.
///
/// At each step, with `maker` the oldest order of the level:
/// - an empty level moves the walk one level on, down for an ask and up for a
///   bid (an ask cannot move below 0);
/// - a canceled maker is dropped;
/// - otherwise the traded quantity is the smaller of the maker's quantity and
///   the taker's remaining quantity; its value is that quantity times the
///   level, paid by the bidder to the asker; when the payer holds less, the
///   walk ends there;
/// - both quantities go down by the traded quantity; a maker left with
///   nothing leaves its queue;
/// - when the taker has nothing left, the walk ends filled at this level.
pub open spec fn sweep(s: Sweep, ask: bool, price: int, taker: int, canceled: Seq<bool>) -> (SweepEnd, Sweep)
    decreases level_measure(s, ask), s.queues[s.index].len(), s.remaining,
{
    if past_price(s.index, price, ask) {
        (SweepEnd::Exhausted, s)
    } else if s.index < 0 || s.index >= s.queues.len() {
        (SweepEnd::Fault(MatchError::IndexOutOfBook), s)
    } else if s.queues[s.index].len() == 0 {
        if ask && s.index == 0 {
            (SweepEnd::Fault(MatchError::IndexUnderflow), s)
        } else {
            sweep(Sweep { index: next_level(s.index, ask), ..s }, ask, price, taker, canceled)
        }
    } else {
        let maker = s.queues[s.index][0];
        let popped = s.queues.update(s.index, without_front(s.queues[s.index]));
        if canceled[maker.is_canceled as int] {
            sweep(Sweep { queues: popped, ..s }, ask, price, taker, canceled)
        } else {
            let traded = min_quantity(maker.quantity, s.remaining);
            let value = trade_value(traded, s.index);
            let payer = if ask { maker.money_address as int } else { taker };
            let payee = if ask { taker } else { maker.money_address as int };
            if value > s.money[payer] {
                (SweepEnd::Unaffordable, s)
            } else {
                let left = (maker.quantity - traded) as u32;
                let next = Sweep {
                    queues: if left == 0 {
                        popped
                    } else {
                        s.queues.update(s.index, with_front_quantity(s.queues[s.index], left))
                    },
                    money: transfer_money(s.money, payer, payee, value as u64),
                    index: s.index,
                    remaining: (s.remaining - traded) as u32,
                };
                if next.remaining == 0 {
                    (SweepEnd::Filled, next)
                } else {
                    sweep(next, ask, price, taker, canceled)
                }
            }
        }
    }
}

/// One trade of a walk: `quantity` changed hands at `level` for `value`,
/// paid from balance `payer` to balance `payee`.
pub struct Trade {
    pub payer: int,
    pub payee: int,
    pub quantity: u32,
    pub level: int,
    pub value: nat,
}

/// The trades of the walk [`sweep`] describes, in the order they happen.
pub open spec fn sweep_trades(s: Sweep, ask: bool, price: int, taker: int, canceled: Seq<bool>) -> Seq<Trade>
    decreases level_measure(s, ask), s.queues[s.index].len(), s.remaining,
{
    if past_price(s.index, price, ask) {
        Seq::empty()
    } else if s.index < 0 || s.index >= s.queues.len() {
        Seq::empty()
    } else if s.queues[s.index].len() == 0 {
        if ask && s.index == 0 {
            Seq::empty()
        } else {
            sweep_trades(Sweep { index: next_level(s.index, ask), ..s }, ask, price, taker, canceled)
        }
    } else {
        let maker = s.queues[s.index][0];
        let popped = s.queues.update(s.index, without_front(s.queues[s.index]));
        if canceled[maker.is_canceled as int] {
            sweep_trades(Sweep { queues: popped, ..s }, ask, price, taker, canceled)
        } else {
            let traded = min_quantity(maker.quantity, s.remaining);
            let value = trade_value(traded, s.index);
            let payer = if ask { maker.money_address as int } else { taker };
            let payee = if ask { taker } else { maker.money_address as int };
            if value > s.money[payer] {
                Seq::empty()
            } else {
                let left = (maker.quantity - traded) as u32;
                let next = Sweep {
                    queues: if left == 0 {
                        popped
                    } else {
                        s.queues.update(s.index, with_front_quantity(s.queues[s.index], left))
                    },
                    money: transfer_money(s.money, payer, payee, value as u64),
                    index: s.index,
                    remaining: (s.remaining - traded) as u32,
                };
                let t = Trade { payer, payee, quantity: traded, level: s.index, value: value as nat };
                if next.remaining == 0 {
                    seq![t]
                } else {
                    seq![t] + sweep_trades(next, ask, price, taker, canceled)
                }
            }
        }
    }
}

} // verus!
