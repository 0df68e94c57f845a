use vstd::prelude::*;

use crate::accounting::{
    is_live, lemma_front_changes_trimmed, lemma_level_live_front, lemma_side_sum_update,
    lemma_trimmed_refl, lemma_trimmed_trans, level_live, side_live, total,
    trimmed,
};
use crate::accounting::{
    lemma_flows_cons, lemma_level_qty_push, level_qty, paid, received, side_qty, side_sum,
    transfer_moves_money,
};
use crate::exchange::{
    ask_effect, ask_price, ask_walk, bid_effect, bid_price, bid_walk, order_refs_valid, queue_refs_valid,
    refs_valid, resting, BookView, MarketOrder, QueueEntry,
};
use crate::ledger::LedgerView;
use crate::ledger::transfer_money;
use crate::matching::{
    level_measure, min_quantity, next_level, past_price, sweep, sweep_trades, trade_value,
    with_front_quantity, without_front, Sweep, SweepEnd, Trade,
};

verus! {

/// Every handle in every queue names one of `nm` balances and one of `nc` flags.
pub open spec fn handles_within(qs: Seq<Seq<QueueEntry>>, nm: nat, nc: nat) -> bool {
    forall|p: int, k: int|
        0 <= p < qs.len() && 0 <= k < qs[p].len() ==> {
            &&& (#[trigger] qs[p][k]).money_address < nm
            &&& qs[p][k].is_canceled < nc
        }
}

pub proof fn lemma_without_front_handles(qs: Seq<Seq<QueueEntry>>, i: int, nm: nat, nc: nat)
    requires
        handles_within(qs, nm, nc),
        0 <= i < qs.len(),
        qs[i].len() > 0,
    ensures
        handles_within(qs.update(i, without_front(qs[i])), nm, nc),
{
    let u = qs.update(i, without_front(qs[i]));
    assert forall|p: int, k: int| 0 <= p < u.len() && 0 <= k < u[p].len() implies {
        &&& (#[trigger] u[p][k]).money_address < nm
        &&& u[p][k].is_canceled < nc
    } by {
        if p == i {
            assert(u[p][k] == qs[p][k + 1]);
        }
    }
}

pub proof fn lemma_with_front_quantity_handles(qs: Seq<Seq<QueueEntry>>, i: int, x: u32, nm: nat, nc: nat)
    requires
        handles_within(qs, nm, nc),
        0 <= i < qs.len(),
        qs[i].len() > 0,
    ensures
        handles_within(qs.update(i, with_front_quantity(qs[i], x)), nm, nc),
{
    let u = qs.update(i, with_front_quantity(qs[i], x));
    assert forall|p: int, k: int| 0 <= p < u.len() && 0 <= k < u[p].len() implies {
        &&& (#[trigger] u[p][k]).money_address < nm
        &&& u[p][k].is_canceled < nc
    } by {
        assert(qs[p][k].money_address == u[p][k].money_address);
    }
}

/// The levels a walk from `from` to `to` passed and left behind, emptied.
pub open spec fn left_behind(ask: bool, from: int, to: int, p: int) -> bool {
    if ask {
        to < p <= from
    } else {
        from <= p < to
    }
}

/// The levels a walk from `from` to `to` never reached.
pub open spec fn beyond_walk(ask: bool, from: int, to: int, p: int) -> bool {
    if ask {
        p > from || p < to
    } else {
        p < from || p > to
    }
}

/// What every walk along the book keeps and leaves behind:
/// - the number of balances;
/// - the number of levels, and the validity of every handle;
/// - every level is what is left of it once some of its oldest orders are
///   gone and the oldest remaining one has perhaps traded part of its quantity;
/// - levels the walk never reached are untouched, and levels it passed are
///   empty;
/// - the walk moves one level at a time, in its own direction, so a walk that
///   passed the order's price stopped just past it (or never started);
/// - the live quantity taken from the walked side is exactly what the taker
///   traded, and a filled taker has nothing left.
pub proof fn sweep_invariants(s: Sweep, ask: bool, price: int, taker: int, canceled: Seq<bool>)
    requires
        handles_within(s.queues, s.money.len(), canceled.len()),
        0 <= taker < s.money.len(),
    ensures
        ({
            let (e, r) = sweep(s, ask, price, taker, canceled);
            &&& r.money.len() == s.money.len()
            &&& r.queues.len() == s.queues.len()
            &&& handles_within(r.queues, s.money.len(), canceled.len())
            &&& forall|p: int| 0 <= p < s.queues.len() ==> trimmed(#[trigger] r.queues[p], s.queues[p])
            &&& forall|p: int|
                0 <= p < s.queues.len() && beyond_walk(ask, s.index, r.index, p) ==> #[trigger] r.queues[p] == s.queues[p]
            &&& forall|p: int|
                0 <= p < s.queues.len() && left_behind(ask, s.index, r.index, p) ==> (#[trigger] r.queues[p]).len() == 0
            &&& (if ask { r.index <= s.index } else { r.index >= s.index })
            &&& e == SweepEnd::Exhausted ==> past_price(r.index, price, ask) && (r.index == s.index || r.index == (if ask { price - 1 } else { price + 1 }))
            &&& (e == SweepEnd::Filled || e == SweepEnd::Unaffordable) ==> 0 <= r.index < s.queues.len() && !past_price(r.index, price, ask)
            &&& e == SweepEnd::Filled ==> r.remaining == 0
            &&& r.remaining <= s.remaining
            &&& side_live(r.queues, canceled) + (s.remaining - r.remaining) == side_live(s.queues, canceled)
        }),
    decreases level_measure(s, ask), s.queues[s.index].len(), s.remaining,
{
    let (e, r) = sweep(s, ask, price, taker, canceled);
    if past_price(s.index, price, ask) || s.index < 0 || s.index >= s.queues.len() || (s.queues[s.index].len() == 0 && ask && s.index == 0) {
        assert forall|p: int| 0 <= p < s.queues.len() implies trimmed(#[trigger] r.queues[p], s.queues[p]) by {
            lemma_trimmed_refl(s.queues[p]);
        }
    } else if s.queues[s.index].len() == 0 {
        let next = Sweep { index: next_level(s.index, ask), ..s };
        sweep_invariants(next, ask, price, taker, canceled);
        assert forall|p: int|
            0 <= p < s.queues.len() && left_behind(ask, s.index, r.index, p) implies (#[trigger] r.queues[p]).len() == 0 by {
            if p == s.index {
                assert(beyond_walk(ask, next.index, r.index, p));
            } else {
                assert(left_behind(ask, next.index, r.index, p));
            }
        }
        assert forall|p: int|
            0 <= p < s.queues.len() && beyond_walk(ask, s.index, r.index, p) implies #[trigger] r.queues[p] == s.queues[p] by {
            assert(beyond_walk(ask, next.index, r.index, p));
        }
    } else {
        let maker = s.queues[s.index][0];
        let q = s.queues[s.index];
        let popped = s.queues.update(s.index, without_front(q));
        let fl = |x: Seq<QueueEntry>| level_live(x, canceled);
        lemma_without_front_handles(s.queues, s.index, s.money.len(), canceled.len());
        lemma_front_changes_trimmed(q, 0);
        lemma_level_live_front(q, 0, canceled);
        lemma_side_sum_update(s.queues, fl, s.index, without_front(q));
        if canceled[maker.is_canceled as int] {
            let next = Sweep { queues: popped, ..s };
            sweep_invariants(next, ask, price, taker, canceled);
            assert forall|p: int| 0 <= p < s.queues.len() implies trimmed(#[trigger] r.queues[p], s.queues[p]) by {
                if p == s.index {
                    lemma_trimmed_trans(r.queues[p], popped[p], s.queues[p]);
                } else {
                    assert(trimmed(r.queues[p], next.queues[p]));
                }
            }
            assert forall|p: int|
                0 <= p < s.queues.len() && beyond_walk(ask, s.index, r.index, p) implies #[trigger] r.queues[p] == s.queues[p] by {
                assert(beyond_walk(ask, next.index, r.index, p));
            }
            assert forall|p: int|
                0 <= p < s.queues.len() && left_behind(ask, s.index, r.index, p) implies (#[trigger] r.queues[p]).len() == 0 by {
                assert(left_behind(ask, next.index, r.index, p));
            }
        } else {
            let traded = min_quantity(maker.quantity, s.remaining);
            let value = trade_value(traded, s.index);
            let payer = if ask { maker.money_address as int } else { taker };
            let payee = if ask { taker } else { maker.money_address as int };
            if value > s.money[payer] {
                assert forall|p: int| 0 <= p < s.queues.len() implies trimmed(#[trigger] r.queues[p], s.queues[p]) by {
                    lemma_trimmed_refl(s.queues[p]);
                }
            } else {
                let left = (maker.quantity - traded) as u32;
                let changed = with_front_quantity(q, left);
                let nq = if left == 0 { popped } else { s.queues.update(s.index, changed) };
                assert(value >= 0) by (nonlinear_arith)
                    requires value == traded * s.index, traded >= 0, s.index >= 0;
                let next = Sweep {
                    queues: nq,
                    money: transfer_money(s.money, payer, payee, value as u64),
                    index: s.index,
                    remaining: (s.remaining - traded) as u32,
                };
                assert(next.money.len() == s.money.len());
                lemma_front_changes_trimmed(q, left);
                lemma_level_live_front(q, left, canceled);
                lemma_with_front_quantity_handles(s.queues, s.index, left, s.money.len(), canceled.len());
                lemma_side_sum_update(s.queues, fl, s.index, changed);
                assert(side_live(next.queues, canceled) == side_live(s.queues, canceled) - traded);
                assert forall|p: int| 0 <= p < s.queues.len() implies trimmed(#[trigger] next.queues[p], s.queues[p]) by {
                    if p != s.index {
                        lemma_trimmed_refl(s.queues[p]);
                    }
                }
                if next.remaining != 0 {
                    sweep_invariants(next, ask, price, taker, canceled);
                    assert forall|p: int| 0 <= p < s.queues.len() implies trimmed(#[trigger] r.queues[p], s.queues[p]) by {
                        lemma_trimmed_trans(r.queues[p], next.queues[p], s.queues[p]);
                    }
                    assert forall|p: int|
                        0 <= p < s.queues.len() && beyond_walk(ask, s.index, r.index, p) implies #[trigger] r.queues[p] == s.queues[p] by {
                        assert(beyond_walk(ask, next.index, r.index, p));
                    }
                    assert forall|p: int|
                        0 <= p < s.queues.len() && left_behind(ask, s.index, r.index, p) implies (#[trigger] r.queues[p]).len() == 0 by {
                        assert(left_behind(ask, next.index, r.index, p));
                    }
                }
            }
        }
    }
}

/// No balance wraps over the trades `ts`: each, with all it receives from
/// others, still fits in a `u64`.
pub open spec fn no_balance_wraps(money: Seq<u64>, ts: Seq<Trade>) -> bool {
    forall|a: int| 0 <= a < money.len() ==> money[a] + #[trigger] received(ts, a) <= u64::MAX
}

/// Where the money of a walk goes: when no balance wraps, each balance ends
/// as it began plus what it received in the walk's trades minus what it paid
/// in them, so the sum of all balances is kept. Every trade is between two
/// balances of the ledger, is worth its quantity times its level, and has the
/// incoming order on its own side (paid to an ask, paid by a bid).
pub proof fn sweep_money_flows(s: Sweep, ask: bool, price: int, taker: int, canceled: Seq<bool>)
    requires
        handles_within(s.queues, s.money.len(), canceled.len()),
        0 <= taker < s.money.len(),
        no_balance_wraps(s.money, sweep_trades(s, ask, price, taker, canceled)),
    ensures
        ({
            let r = sweep(s, ask, price, taker, canceled).1;
            let ts = sweep_trades(s, ask, price, taker, canceled);
            &&& r.money.len() == s.money.len()
            &&& total(r.money) == total(s.money)
            &&& forall|a: int|
                0 <= a < s.money.len() ==> #[trigger] r.money[a] == s.money[a] + received(ts, a) - paid(ts, a)
            &&& forall|i: int|
                0 <= i < ts.len() ==> {
                    &&& 0 <= (#[trigger] ts[i]).payer < s.money.len()
                    &&& 0 <= ts[i].payee < s.money.len()
                    &&& 0 <= ts[i].level
                    &&& ts[i].value == ts[i].quantity * ts[i].level
                    &&& if ask { ts[i].payee == taker } else { ts[i].payer == taker }
                }
        }),
    decreases level_measure(s, ask), s.queues[s.index].len(), s.remaining,
{
    let r = sweep(s, ask, price, taker, canceled).1;
    let ts = sweep_trades(s, ask, price, taker, canceled);
    if past_price(s.index, price, ask) || s.index < 0 || s.index >= s.queues.len() || (s.queues[s.index].len() == 0 && ask && s.index == 0) {
        assert forall|a: int| 0 <= a < s.money.len() implies #[trigger] r.money[a] == s.money[a] + received(ts, a) - paid(ts, a) by {
            assert(received(ts, a) == 0 && paid(ts, a) == 0);
        }
    } else if s.queues[s.index].len() == 0 {
        let next = Sweep { index: next_level(s.index, ask), ..s };
        sweep_money_flows(next, ask, price, taker, canceled);
    } else {
        let maker = s.queues[s.index][0];
        let q = s.queues[s.index];
        let popped = s.queues.update(s.index, without_front(q));
        lemma_without_front_handles(s.queues, s.index, s.money.len(), canceled.len());
        assert(maker.money_address < s.money.len());
        if canceled[maker.is_canceled as int] {
            let next = Sweep { queues: popped, ..s };
            sweep_money_flows(next, ask, price, taker, canceled);
        } else {
            let traded = min_quantity(maker.quantity, s.remaining);
            let value = trade_value(traded, s.index);
            let payer = if ask { maker.money_address as int } else { taker };
            let payee = if ask { taker } else { maker.money_address as int };
            if value > s.money[payer] {
                assert forall|a: int| 0 <= a < s.money.len() implies #[trigger] r.money[a] == s.money[a] + received(ts, a) - paid(ts, a) by {
                    assert(received(ts, a) == 0 && paid(ts, a) == 0);
                }
            } else {
                assert(value >= 0) by (nonlinear_arith)
                    requires value == traded * s.index, traded >= 0, s.index >= 0;
                let left = (maker.quantity - traded) as u32;
                let next = Sweep {
                    queues: if left == 0 {
                        popped
                    } else {
                        s.queues.update(s.index, with_front_quantity(q, left))
                    },
                    money: transfer_money(s.money, payer, payee, value as u64),
                    index: s.index,
                    remaining: (s.remaining - traded) as u32,
                };
                let t = Trade { payer, payee, quantity: traded, level: s.index, value: value as nat };
                let rest = sweep_trades(next, ask, price, taker, canceled);
                if next.remaining == 0 {
                    assert(ts == seq![t]);
                } else {
                    assert(ts == seq![t] + rest);
                }
                lemma_flows_cons(t, rest, payee);
                transfer_moves_money(s.money, payer, payee, value as u64);
                lemma_with_front_quantity_handles(s.queues, s.index, left, s.money.len(), canceled.len());
                if next.remaining == 0 {
                    assert forall|a: int| 0 <= a < s.money.len() implies #[trigger] r.money[a] == s.money[a] + received(ts, a) - paid(ts, a) by {
                        lemma_flows_cons(t, rest, a);
                    }
                    assert(ts[0] == t);
                } else {
                    assert forall|a: int| 0 <= a < next.money.len() implies next.money[a] + #[trigger] received(rest, a) <= u64::MAX by {
                        lemma_flows_cons(t, rest, a);
                        assert(s.money[a] + received(ts, a) <= u64::MAX);
                    }
                    sweep_money_flows(next, ask, price, taker, canceled);
                    assert forall|a: int| 0 <= a < s.money.len() implies #[trigger] r.money[a] == s.money[a] + received(ts, a) - paid(ts, a) by {
                        lemma_flows_cons(t, rest, a);
                        assert(r.money[a] == next.money[a] + received(rest, a) - paid(rest, a));
                    }
                    assert forall|i: int| 0 <= i < ts.len() implies {
                        &&& 0 <= (#[trigger] ts[i]).payer < s.money.len()
                        &&& 0 <= ts[i].payee < s.money.len()
                        &&& 0 <= ts[i].level
                        &&& ts[i].value == ts[i].quantity * ts[i].level
                        &&& if ask { ts[i].payee == taker } else { ts[i].payer == taker }
                    } by {
                        if i > 0 {
                            assert(ts[i] == rest[i - 1]);
                        }
                    }
                }
            }
        }
    }
}

proof fn lemma_handles(b: BookView, l: LedgerView)
    requires
        refs_valid(b, l),
    ensures
        handles_within(b.bids, l.money.len(), l.canceled.len()),
        handles_within(b.asks, l.money.len(), l.canceled.len()),
{
    assert forall|p: int, k: int| 0 <= p < b.bids.len() && 0 <= k < b.bids[p].len() implies {
        &&& (#[trigger] b.bids[p][k]).money_address < l.money.len()
        &&& b.bids[p][k].is_canceled < l.canceled.len()
    } by {
        assert(queue_refs_valid(b.bids[p], l));
    }
    assert forall|p: int, k: int| 0 <= p < b.asks.len() && 0 <= k < b.asks[p].len() implies {
        &&& (#[trigger] b.asks[p][k]).money_address < l.money.len()
        &&& b.asks[p][k].is_canceled < l.canceled.len()
    } by {
        assert(queue_refs_valid(b.asks[p], l));
    }
}

proof fn lemma_ask_walk(b: BookView, l: LedgerView, o: MarketOrder)
    requires
        refs_valid(b, l),
        order_refs_valid(o, l),
    ensures
        ({
            let s = Sweep { queues: b.bids, money: l.money, index: b.lowest_bid_index as int, remaining: o.quantity };
            let (e, r) = ask_walk(b, l, o);
            &&& (e, r) == sweep(s, true, ask_price(b, o) as int, o.money_address as int, l.canceled)
            &&& r.money.len() == s.money.len()
            &&& r.queues.len() == s.queues.len()
            &&& forall|p: int| 0 <= p < s.queues.len() ==> trimmed(#[trigger] r.queues[p], s.queues[p])
            &&& forall|p: int|
                0 <= p < s.queues.len() && beyond_walk(true, s.index, r.index, p) ==> #[trigger] r.queues[p] == s.queues[p]
            &&& forall|p: int|
                0 <= p < s.queues.len() && left_behind(true, s.index, r.index, p) ==> (#[trigger] r.queues[p]).len() == 0
            &&& r.index <= s.index
            &&& e == SweepEnd::Exhausted ==> r.index < ask_price(b, o) && (r.index == s.index || r.index == ask_price(b, o) - 1)
            &&& (e == SweepEnd::Filled || e == SweepEnd::Unaffordable) ==> 0 <= r.index < s.queues.len()
            &&& e == SweepEnd::Filled ==> r.remaining == 0
            &&& r.remaining <= s.remaining
            &&& side_live(r.queues, l.canceled) + (s.remaining - r.remaining) == side_live(s.queues, l.canceled)
        }),
{
    lemma_handles(b, l);
    let s = Sweep { queues: b.bids, money: l.money, index: b.lowest_bid_index as int, remaining: o.quantity };
    sweep_invariants(s, true, ask_price(b, o) as int, o.money_address as int, l.canceled);
}

proof fn lemma_bid_walk(b: BookView, l: LedgerView, o: MarketOrder)
    requires
        refs_valid(b, l),
        order_refs_valid(o, l),
    ensures
        ({
            let s = Sweep { queues: b.asks, money: l.money, index: b.highest_ask_index as int, remaining: o.quantity };
            let (e, r) = bid_walk(b, l, o);
            &&& (e, r) == sweep(s, false, bid_price(b, o) as int, o.money_address as int, l.canceled)
            &&& r.money.len() == s.money.len()
            &&& r.queues.len() == s.queues.len()
            &&& forall|p: int| 0 <= p < s.queues.len() ==> trimmed(#[trigger] r.queues[p], s.queues[p])
            &&& forall|p: int|
                0 <= p < s.queues.len() && beyond_walk(false, s.index, r.index, p) ==> #[trigger] r.queues[p] == s.queues[p]
            &&& forall|p: int|
                0 <= p < s.queues.len() && left_behind(false, s.index, r.index, p) ==> (#[trigger] r.queues[p]).len() == 0
            &&& r.index >= s.index
            &&& e == SweepEnd::Exhausted ==> r.index > bid_price(b, o) && (r.index == s.index || r.index == bid_price(b, o) + 1)
            &&& (e == SweepEnd::Filled || e == SweepEnd::Unaffordable) ==> 0 <= r.index < s.queues.len()
            &&& e == SweepEnd::Filled ==> r.remaining == 0
            &&& r.remaining <= s.remaining
            &&& side_live(r.queues, l.canceled) + (s.remaining - r.remaining) == side_live(s.queues, l.canceled)
        }),
{
    lemma_handles(b, l);
    let s = Sweep { queues: b.asks, money: l.money, index: b.highest_ask_index as int, remaining: o.quantity };
    sweep_invariants(s, false, bid_price(b, o) as int, o.money_address as int, l.canceled);
}

/// The trades of an incoming ask, in the order they happen.
pub open spec fn ask_trades(b: BookView, l: LedgerView, o: MarketOrder) -> Seq<Trade> {
    sweep_trades(
        Sweep { queues: b.bids, money: l.money, index: b.lowest_bid_index as int, remaining: o.quantity },
        true,
        ask_price(b, o) as int,
        o.money_address as int,
        l.canceled,
    )
}

/// The trades of an incoming bid, in the order they happen.
pub open spec fn bid_trades(b: BookView, l: LedgerView, o: MarketOrder) -> Seq<Trade> {
    sweep_trades(
        Sweep { queues: b.asks, money: l.money, index: b.highest_ask_index as int, remaining: o.quantity },
        false,
        bid_price(b, o) as int,
        o.money_address as int,
        l.canceled,
    )
}

/// An incoming ask neither creates nor destroys money, whatever its outcome:
/// when no balance wraps, the sum of all balances is what it was.
pub proof fn ask_keeps_total_money(b: BookView, l: LedgerView, o: MarketOrder)
    requires
        refs_valid(b, l),
        order_refs_valid(o, l),
        no_balance_wraps(l.money, ask_trades(b, l, o)),
    ensures
        total(ask_effect(b, l, o).2) == total(l.money),
        ask_effect(b, l, o).2.len() == l.money.len(),
{
    ask_moves_money_by_fills(b, l, o);
}

/// An incoming bid neither creates nor destroys money, whatever its outcome:
/// when no balance wraps, the sum of all balances is what it was.
pub proof fn bid_keeps_total_money(b: BookView, l: LedgerView, o: MarketOrder)
    requires
        refs_valid(b, l),
        order_refs_valid(o, l),
        no_balance_wraps(l.money, bid_trades(b, l, o)),
    ensures
        total(bid_effect(b, l, o).2) == total(l.money),
        bid_effect(b, l, o).2.len() == l.money.len(),
{
    bid_moves_money_by_fills(b, l, o);
}

/// Under an incoming ask each balance changes only by its own fills: every
/// trade is paid by a bidder to the asker at the value of its quantity times
/// its level, and, when no balance wraps, each balance ends as it began plus
/// what it received minus what it paid in those trades. A balance in no
/// trade is unchanged.
pub proof fn ask_moves_money_by_fills(b: BookView, l: LedgerView, o: MarketOrder)
    requires
        refs_valid(b, l),
        order_refs_valid(o, l),
        no_balance_wraps(l.money, ask_trades(b, l, o)),
    ensures
        ({
            let after = ask_effect(b, l, o).2;
            let ts = ask_trades(b, l, o);
            &&& after.len() == l.money.len()
            &&& total(after) == total(l.money)
            &&& forall|a: int|
                0 <= a < l.money.len() ==> #[trigger] after[a] == l.money[a] + received(ts, a) - paid(ts, a)
            &&& forall|i: int|
                0 <= i < ts.len() ==> {
                    &&& (#[trigger] ts[i]).payee == o.money_address
                    &&& 0 <= ts[i].payer < l.money.len()
                    &&& ts[i].value == ts[i].quantity * ts[i].level
                }
        }),
{
    lemma_handles(b, l);
    sweep_money_flows(
        Sweep { queues: b.bids, money: l.money, index: b.lowest_bid_index as int, remaining: o.quantity },
        true,
        ask_price(b, o) as int,
        o.money_address as int,
        l.canceled,
    );
}

/// Under an incoming bid each balance changes only by its own fills: every
/// trade is paid by the bidder to an asker at the value of its quantity times
/// its level, and, when no balance wraps, each balance ends as it began plus
/// what it received minus what it paid in those trades. A balance in no
/// trade is unchanged.
pub proof fn bid_moves_money_by_fills(b: BookView, l: LedgerView, o: MarketOrder)
    requires
        refs_valid(b, l),
        order_refs_valid(o, l),
        no_balance_wraps(l.money, bid_trades(b, l, o)),
    ensures
        ({
            let after = bid_effect(b, l, o).2;
            let ts = bid_trades(b, l, o);
            &&& after.len() == l.money.len()
            &&& total(after) == total(l.money)
            &&& forall|a: int|
                0 <= a < l.money.len() ==> #[trigger] after[a] == l.money[a] + received(ts, a) - paid(ts, a)
            &&& forall|i: int|
                0 <= i < ts.len() ==> {
                    &&& (#[trigger] ts[i]).payer == o.money_address
                    &&& 0 <= ts[i].payee < l.money.len()
                    &&& ts[i].value == ts[i].quantity * ts[i].level
                }
        }),
{
    lemma_handles(b, l);
    sweep_money_flows(
        Sweep { queues: b.asks, money: l.money, index: b.highest_ask_index as int, remaining: o.quantity },
        false,
        bid_price(b, o) as int,
        o.money_address as int,
        l.canceled,
    );
}

/// `after` is `before` or `before` with one order of `o` (holding `o`'s
/// handles) joined at the back of level `price`.
pub open spec fn joined_at_most_one(after: Seq<Seq<QueueEntry>>, before: Seq<Seq<QueueEntry>>, price: int, o: MarketOrder) -> bool {
    &&& after.len() == before.len()
    &&& forall|p: int|
        0 <= p < before.len() ==> #[trigger] after[p] == before[p] || (
            p == price && after[p].len() == before[p].len() + 1 && after[p].drop_last() == before[p]
                && after[p].last().is_canceled == o.is_canceled
                && after[p].last().money_address == o.money_address
        )
}

/// Time priority under an incoming ask: the bids only lose orders from the
/// front of each level, the oldest remaining one perhaps having traded part
/// of its quantity; the asks are untouched but for at most one order, the
/// rest of the incoming one, which joins the back of the level at its price.
pub proof fn ask_keeps_time_priority(b: BookView, l: LedgerView, o: MarketOrder)
    requires
        refs_valid(b, l),
        order_refs_valid(o, l),
    ensures
        ({
            let after = ask_effect(b, l, o).1;
            &&& after.bids.len() == b.bids.len()
            &&& forall|p: int| 0 <= p < b.bids.len() ==> trimmed(#[trigger] after.bids[p], b.bids[p])
            &&& joined_at_most_one(after.asks, b.asks, ask_price(b, o) as int, o)
        }),
{
    lemma_ask_walk(b, l, o);
    let after = ask_effect(b, l, o).1;
    assert forall|p: int| 0 <= p < b.asks.len() implies #[trigger] after.asks[p] == b.asks[p] || (
        p == ask_price(b, o) && after.asks[p].len() == b.asks[p].len() + 1 && after.asks[p].drop_last() == b.asks[p]
            && after.asks[p].last().is_canceled == o.is_canceled
            && after.asks[p].last().money_address == o.money_address
    ) by {
        if after.asks[p] != b.asks[p] {
            assert(after.asks[p].drop_last() =~= b.asks[p]);
        }
    }
}

/// Time priority under an incoming bid: the asks only lose orders from the
/// front of each level, the oldest remaining one perhaps having traded part
/// of its quantity; the bids are untouched but for at most one order, the
/// rest of the incoming one, which joins the back of the level at its price.
pub proof fn bid_keeps_time_priority(b: BookView, l: LedgerView, o: MarketOrder)
    requires
        refs_valid(b, l),
        order_refs_valid(o, l),
    ensures
        ({
            let after = bid_effect(b, l, o).1;
            &&& after.asks.len() == b.asks.len()
            &&& forall|p: int| 0 <= p < b.asks.len() ==> trimmed(#[trigger] after.asks[p], b.asks[p])
            &&& joined_at_most_one(after.bids, b.bids, bid_price(b, o) as int, o)
        }),
{
    lemma_bid_walk(b, l, o);
    let after = bid_effect(b, l, o).1;
    assert forall|p: int| 0 <= p < b.bids.len() implies #[trigger] after.bids[p] == b.bids[p] || (
        p == bid_price(b, o) && after.bids[p].len() == b.bids[p].len() + 1 && after.bids[p].drop_last() == b.bids[p]
            && after.bids[p].last().is_canceled == o.is_canceled
            && after.bids[p].last().money_address == o.money_address
    ) by {
        if after.bids[p] != b.bids[p] {
            assert(after.bids[p].drop_last() =~= b.bids[p]);
        }
    }
}

/// The incoming ask stopped because a bidder could not pay.
pub open spec fn ask_unpaid(b: BookView, l: LedgerView, o: MarketOrder) -> bool {
    ask_walk(b, l, o).0 == SweepEnd::Unaffordable
}

/// The incoming bid stopped because the bidder could not pay.
pub open spec fn bid_unpaid(b: BookView, l: LedgerView, o: MarketOrder) -> bool {
    bid_walk(b, l, o).0 == SweepEnd::Unaffordable
}

/// Quantity accounting under an incoming ask: the live quantity the bids lose
/// is what the ask sold, and what joins the asks is what it did not sell.
/// Unless a bidder could not pay or the ask was refused, the two add up to
/// the ask's quantity; they never exceed it.
pub proof fn ask_accounts_quantity(b: BookView, l: LedgerView, o: MarketOrder)
    requires
        refs_valid(b, l),
        order_refs_valid(o, l),
    ensures
        ({
            let after = ask_effect(b, l, o).1;
            let sold = side_live(b.bids, l.canceled) - side_live(after.bids, l.canceled);
            let rested = side_qty(after.asks) - side_qty(b.asks);
            &&& 0 <= sold
            &&& 0 <= rested
            &&& sold + rested <= o.quantity
            &&& ask_effect(b, l, o).0 is Ok && !ask_unpaid(b, l, o) ==> sold + rested == o.quantity
        }),
{
    lemma_ask_walk(b, l, o);
    let (e, r) = ask_walk(b, l, o);
    let price = ask_price(b, o);
    if e == SweepEnd::Exhausted && price < b.asks.len() {
        let fq = |q: Seq<QueueEntry>| level_qty(q);
        lemma_side_sum_update(b.asks, fq, price as int, b.asks[price as int].push(resting(o, r.remaining)));
        lemma_level_qty_push(b.asks[price as int], resting(o, r.remaining));
    }
}

/// Quantity accounting under an incoming bid: the live quantity the asks lose
/// is what the bid bought, and what joins the bids is what it did not buy.
/// Unless the bidder could not pay or the bid was refused, the two add up to
/// the bid's quantity; they never exceed it.
pub proof fn bid_accounts_quantity(b: BookView, l: LedgerView, o: MarketOrder)
    requires
        refs_valid(b, l),
        order_refs_valid(o, l),
    ensures
        ({
            let after = bid_effect(b, l, o).1;
            let bought = side_live(b.asks, l.canceled) - side_live(after.asks, l.canceled);
            let rested = side_qty(after.bids) - side_qty(b.bids);
            &&& 0 <= bought
            &&& 0 <= rested
            &&& bought + rested <= o.quantity
            &&& bid_effect(b, l, o).0 is Ok && !bid_unpaid(b, l, o) ==> bought + rested == o.quantity
        }),
{
    lemma_bid_walk(b, l, o);
    let (e, r) = bid_walk(b, l, o);
    let price = bid_price(b, o);
    if e == SweepEnd::Exhausted && price < b.bids.len() {
        let fq = |q: Seq<QueueEntry>| level_qty(q);
        lemma_side_sum_update(b.bids, fq, price as int, b.bids[price as int].push(resting(o, r.remaining)));
        lemma_level_qty_push(b.bids[price as int], resting(o, r.remaining));
    }
}

/// No live bid rests above the best bid (`lowest_bid_index`).
pub open spec fn bids_within_best(b: BookView, canceled: Seq<bool>) -> bool {
    forall|p: int, k: int|
        0 <= p < b.bids.len() && 0 <= k < b.bids[p].len() && is_live(#[trigger] b.bids[p][k], canceled)
            ==> p <= b.lowest_bid_index
}

/// No live ask rests below the best ask (`highest_ask_index`).
pub open spec fn asks_within_best(b: BookView, canceled: Seq<bool>) -> bool {
    forall|p: int, k: int|
        0 <= p < b.asks.len() && 0 <= k < b.asks[p].len() && is_live(#[trigger] b.asks[p][k], canceled)
            ==> b.highest_ask_index <= p
}

/// Every live bid rests strictly below every live ask.
pub open spec fn uncrossed(b: BookView, canceled: Seq<bool>) -> bool {
    forall|p1: int, k1: int, p2: int, k2: int|
        #![trigger b.bids[p1][k1], b.asks[p2][k2]]
        0 <= p1 < b.bids.len() && 0 <= k1 < b.bids[p1].len() && 0 <= p2 < b.asks.len() && 0 <= k2 < b.asks[p2].len()
            && is_live(b.bids[p1][k1], canceled) && is_live(b.asks[p2][k2], canceled) ==> p1 < p2
}

/// The book is uncrossed and its best bid and best ask bound the live quotes.
pub open spec fn quotes_hold(b: BookView, canceled: Seq<bool>) -> bool {
    &&& bids_within_best(b, canceled)
    &&& asks_within_best(b, canceled)
    &&& uncrossed(b, canceled)
}

/// A live order left on the walked side after a walk was live at the same
/// level before it.
proof fn lemma_trimmed_live(a: Seq<QueueEntry>, q: Seq<QueueEntry>, k: int, canceled: Seq<bool>)
    requires
        trimmed(a, q),
        0 <= k < a.len(),
        is_live(a[k], canceled),
    ensures
        0 <= k + q.len() - a.len() < q.len(),
        is_live(q[k + q.len() - a.len()], canceled),
{
    if k > 0 {
        assert(a[k] == q[k + q.len() - a.len()]);
    }
}

/// Where the live bids are after an incoming ask that was not refused: no
/// higher than the new best bid and, when the ask walked past its price,
/// strictly below that price; each was live at its level before.
proof fn lemma_ask_leaves_bids(b: BookView, l: LedgerView, o: MarketOrder)
    requires
        refs_valid(b, l),
        order_refs_valid(o, l),
        bids_within_best(b, l.canceled),
        ask_effect(b, l, o).0 is Ok,
    ensures
        ({
            let after = ask_effect(b, l, o).1;
            forall|p: int, k: int|
                0 <= p < after.bids.len() && 0 <= k < after.bids[p].len() && is_live(#[trigger] after.bids[p][k], l.canceled)
                    ==> {
                    &&& p <= after.lowest_bid_index
                    &&& ask_walk(b, l, o).0 == SweepEnd::Exhausted ==> p < ask_price(b, o)
                    &&& 0 <= k + b.bids[p].len() - after.bids[p].len() < b.bids[p].len()
                    &&& is_live(b.bids[p][k + b.bids[p].len() - after.bids[p].len()], l.canceled)
                }
        }),
{
    lemma_ask_walk(b, l, o);
    let (e, r) = ask_walk(b, l, o);
    let after = ask_effect(b, l, o).1;
    let start = b.lowest_bid_index as int;
    let price = ask_price(b, o) as int;
    assert forall|p: int, k: int|
        0 <= p < after.bids.len() && 0 <= k < after.bids[p].len() && is_live(#[trigger] after.bids[p][k], l.canceled)
            implies {
            &&& p <= after.lowest_bid_index
            &&& e == SweepEnd::Exhausted ==> p < price
            &&& 0 <= k + b.bids[p].len() - after.bids[p].len() < b.bids[p].len()
            &&& is_live(b.bids[p][k + b.bids[p].len() - after.bids[p].len()], l.canceled)
        } by {
        assert(after.bids == r.queues);
        assert(trimmed(r.queues[p], b.bids[p]));
        lemma_trimmed_live(after.bids[p], b.bids[p], k, l.canceled);
        let j = k + b.bids[p].len() - after.bids[p].len();
        assert(is_live(b.bids[p][j], l.canceled));
        assert(p <= start);
        if e == SweepEnd::Filled {
            if p > r.index {
                assert(left_behind(true, start, r.index, p));
            }
        }
        if e == SweepEnd::Exhausted {
            if p >= price {
                if r.index != start {
                    assert(left_behind(true, start, r.index, p));
                }
            }
        }
    }
}

/// Where the live asks are after an incoming bid that was not refused: no
/// lower than the new best ask and, when the bid walked past its price,
/// strictly above that price; each was live at its level before.
proof fn lemma_bid_leaves_asks(b: BookView, l: LedgerView, o: MarketOrder)
    requires
        refs_valid(b, l),
        order_refs_valid(o, l),
        asks_within_best(b, l.canceled),
        bid_effect(b, l, o).0 is Ok,
    ensures
        ({
            let after = bid_effect(b, l, o).1;
            forall|p: int, k: int|
                0 <= p < after.asks.len() && 0 <= k < after.asks[p].len() && is_live(#[trigger] after.asks[p][k], l.canceled)
                    ==> {
                    &&& after.highest_ask_index <= p
                    &&& bid_walk(b, l, o).0 == SweepEnd::Exhausted ==> bid_price(b, o) < p
                    &&& 0 <= k + b.asks[p].len() - after.asks[p].len() < b.asks[p].len()
                    &&& is_live(b.asks[p][k + b.asks[p].len() - after.asks[p].len()], l.canceled)
                }
        }),
{
    lemma_bid_walk(b, l, o);
    let (e, r) = bid_walk(b, l, o);
    let after = bid_effect(b, l, o).1;
    let start = b.highest_ask_index as int;
    let price = bid_price(b, o) as int;
    assert forall|p: int, k: int|
        0 <= p < after.asks.len() && 0 <= k < after.asks[p].len() && is_live(#[trigger] after.asks[p][k], l.canceled)
            implies {
            &&& after.highest_ask_index <= p
            &&& e == SweepEnd::Exhausted ==> price < p
            &&& 0 <= k + b.asks[p].len() - after.asks[p].len() < b.asks[p].len()
            &&& is_live(b.asks[p][k + b.asks[p].len() - after.asks[p].len()], l.canceled)
        } by {
        assert(after.asks == r.queues);
        assert(trimmed(r.queues[p], b.asks[p]));
        lemma_trimmed_live(after.asks[p], b.asks[p], k, l.canceled);
        let j = k + b.asks[p].len() - after.asks[p].len();
        assert(is_live(b.asks[p][j], l.canceled));
        assert(start <= p);
        if e == SweepEnd::Filled {
            if p < r.index {
                assert(left_behind(false, start, r.index, p));
            }
        }
        if e == SweepEnd::Exhausted {
            if p <= price {
                if r.index != start {
                    assert(left_behind(false, start, r.index, p));
                }
            }
        }
    }
}

/// Where the ask side of the book stands after an incoming ask that was not
/// refused: every order on it was there before at the same place, but for
/// the rest of the incoming ask, at the back of the level at its price when
/// it walked past that price; only then does the best ask move, towards that
/// price.
proof fn lemma_ask_adds_asks(b: BookView, l: LedgerView, o: MarketOrder)
    requires
        refs_valid(b, l),
        order_refs_valid(o, l),
        ask_effect(b, l, o).0 is Ok,
    ensures
        ({
            let after = ask_effect(b, l, o).1;
            let pushed = ask_walk(b, l, o).0 == SweepEnd::Exhausted;
            &&& after.asks.len() == b.asks.len()
            &&& !pushed ==> after.highest_ask_index == b.highest_ask_index
            &&& pushed ==> after.highest_ask_index <= ask_price(b, o) && after.highest_ask_index <= b.highest_ask_index
            &&& forall|p: int, k: int|
                #![trigger after.asks[p][k]]
                0 <= p < after.asks.len() && 0 <= k < after.asks[p].len() ==> (k < b.asks[p].len()
                    && after.asks[p][k] == b.asks[p][k]) || (pushed && p == ask_price(b, o))
        }),
{
    lemma_ask_walk(b, l, o);
    let after = ask_effect(b, l, o).1;
    let pushed = ask_walk(b, l, o).0 == SweepEnd::Exhausted;
    let price = ask_price(b, o) as int;
    assert forall|p: int, k: int|
        #![trigger after.asks[p][k]]
        0 <= p < after.asks.len() && 0 <= k < after.asks[p].len() implies (k < b.asks[p].len()
            && after.asks[p][k] == b.asks[p][k]) || (pushed && p == price) by {
        if pushed && p == price {
            if k < b.asks[p].len() {
                assert(after.asks[p][k] == b.asks[p][k]);
            }
        } else {
            assert(after.asks[p] == b.asks[p]);
        }
    }
}

/// Where the bid side of the book stands after an incoming bid that was not
/// refused: every order on it was there before at the same place, but for
/// the rest of the incoming bid, at the back of the level at its price when
/// it walked past that price; only then does the best bid move, towards that
/// price.
proof fn lemma_bid_adds_bids(b: BookView, l: LedgerView, o: MarketOrder)
    requires
        refs_valid(b, l),
        order_refs_valid(o, l),
        bid_effect(b, l, o).0 is Ok,
    ensures
        ({
            let after = bid_effect(b, l, o).1;
            let pushed = bid_walk(b, l, o).0 == SweepEnd::Exhausted;
            &&& after.bids.len() == b.bids.len()
            &&& !pushed ==> after.lowest_bid_index == b.lowest_bid_index
            &&& pushed ==> bid_price(b, o) <= after.lowest_bid_index && b.lowest_bid_index <= after.lowest_bid_index
            &&& forall|p: int, k: int|
                #![trigger after.bids[p][k]]
                0 <= p < after.bids.len() && 0 <= k < after.bids[p].len() ==> (k < b.bids[p].len()
                    && after.bids[p][k] == b.bids[p][k]) || (pushed && p == bid_price(b, o))
        }),
{
    lemma_bid_walk(b, l, o);
    let after = bid_effect(b, l, o).1;
    let pushed = bid_walk(b, l, o).0 == SweepEnd::Exhausted;
    let price = bid_price(b, o) as int;
    assert forall|p: int, k: int|
        #![trigger after.bids[p][k]]
        0 <= p < after.bids.len() && 0 <= k < after.bids[p].len() implies (k < b.bids[p].len()
            && after.bids[p][k] == b.bids[p][k]) || (pushed && p == price) by {
        if pushed && p == price {
            if k < b.bids[p].len() {
                assert(after.bids[p][k] == b.bids[p][k]);
            }
        } else {
            assert(after.bids[p] == b.bids[p]);
        }
    }
}

/// The best bid and best ask keep bounding the live quotes under an incoming
/// ask that is not refused: no live bid rests above the best bid and no live
/// ask below the best ask.
pub proof fn ask_keeps_quote_bounds(b: BookView, l: LedgerView, o: MarketOrder)
    requires
        refs_valid(b, l),
        order_refs_valid(o, l),
        bids_within_best(b, l.canceled),
        asks_within_best(b, l.canceled),
        ask_effect(b, l, o).0 is Ok,
    ensures
        bids_within_best(ask_effect(b, l, o).1, l.canceled),
        asks_within_best(ask_effect(b, l, o).1, l.canceled),
{
    lemma_ask_walk(b, l, o);
    lemma_ask_leaves_bids(b, l, o);
    lemma_ask_adds_asks(b, l, o);
    let after = ask_effect(b, l, o).1;
    assert forall|p: int, k: int|
        0 <= p < after.asks.len() && 0 <= k < after.asks[p].len() && is_live(#[trigger] after.asks[p][k], l.canceled)
            implies after.highest_ask_index <= p by {
        if k < b.asks[p].len() && after.asks[p][k] == b.asks[p][k] {
            assert(is_live(b.asks[p][k], l.canceled));
        }
    }
}

/// The book stays uncrossed under an incoming ask that is not refused: a
/// crossing ask sells into the best bids first, so no live bid is left at or
/// above a level holding a live ask.
pub proof fn ask_keeps_uncrossed(b: BookView, l: LedgerView, o: MarketOrder)
    requires
        refs_valid(b, l),
        order_refs_valid(o, l),
        bids_within_best(b, l.canceled),
        uncrossed(b, l.canceled),
        ask_effect(b, l, o).0 is Ok,
    ensures
        uncrossed(ask_effect(b, l, o).1, l.canceled),
{
    lemma_ask_walk(b, l, o);
    lemma_ask_leaves_bids(b, l, o);
    lemma_ask_adds_asks(b, l, o);
    let after = ask_effect(b, l, o).1;
    let c = l.canceled;
    assert forall|p1: int, k1: int, p2: int, k2: int|
        #![trigger after.bids[p1][k1], after.asks[p2][k2]]
        0 <= p1 < after.bids.len() && 0 <= k1 < after.bids[p1].len() && 0 <= p2 < after.asks.len() && 0 <= k2 < after.asks[p2].len()
            && is_live(after.bids[p1][k1], c) && is_live(after.asks[p2][k2], c) implies p1 < p2 by {
        let j1 = k1 + b.bids[p1].len() - after.bids[p1].len();
        assert(is_live(b.bids[p1][j1], c));
        if k2 < b.asks[p2].len() && after.asks[p2][k2] == b.asks[p2][k2] {
            // Both orders were live in the book before, which was uncrossed.
            assert(is_live(b.bids[p1][j1], c) && is_live(b.asks[p2][k2], c));
        }
    }
}

/// The best bid and best ask keep bounding the live quotes under an incoming
/// bid that is not refused: no live bid rests above the best bid and no live
/// ask below the best ask.
pub proof fn bid_keeps_quote_bounds(b: BookView, l: LedgerView, o: MarketOrder)
    requires
        refs_valid(b, l),
        order_refs_valid(o, l),
        bids_within_best(b, l.canceled),
        asks_within_best(b, l.canceled),
        bid_effect(b, l, o).0 is Ok,
    ensures
        bids_within_best(bid_effect(b, l, o).1, l.canceled),
        asks_within_best(bid_effect(b, l, o).1, l.canceled),
{
    lemma_bid_walk(b, l, o);
    lemma_bid_leaves_asks(b, l, o);
    lemma_bid_adds_bids(b, l, o);
    let after = bid_effect(b, l, o).1;
    assert forall|p: int, k: int|
        0 <= p < after.bids.len() && 0 <= k < after.bids[p].len() && is_live(#[trigger] after.bids[p][k], l.canceled)
            implies p <= after.lowest_bid_index by {
        if k < b.bids[p].len() && after.bids[p][k] == b.bids[p][k] {
            assert(is_live(b.bids[p][k], l.canceled));
        }
    }
}

/// The book stays uncrossed under an incoming bid that is not refused: a
/// crossing bid buys from the best asks first, so no live ask is left at or
/// below a level holding a live bid.
pub proof fn bid_keeps_uncrossed(b: BookView, l: LedgerView, o: MarketOrder)
    requires
        refs_valid(b, l),
        order_refs_valid(o, l),
        asks_within_best(b, l.canceled),
        uncrossed(b, l.canceled),
        bid_effect(b, l, o).0 is Ok,
    ensures
        uncrossed(bid_effect(b, l, o).1, l.canceled),
{
    lemma_bid_walk(b, l, o);
    lemma_bid_leaves_asks(b, l, o);
    lemma_bid_adds_bids(b, l, o);
    let after = bid_effect(b, l, o).1;
    let c = l.canceled;
    assert forall|p1: int, k1: int, p2: int, k2: int|
        #![trigger after.bids[p1][k1], after.asks[p2][k2]]
        0 <= p1 < after.bids.len() && 0 <= k1 < after.bids[p1].len() && 0 <= p2 < after.asks.len() && 0 <= k2 < after.asks[p2].len()
            && is_live(after.bids[p1][k1], c) && is_live(after.asks[p2][k2], c) implies p1 < p2 by {
        let j2 = k2 + b.asks[p2].len() - after.asks[p2].len();
        assert(is_live(b.asks[p2][j2], c));
        if k1 < b.bids[p1].len() && after.bids[p1][k1] == b.bids[p1][k1] {
            // Both orders were live in the book before, which was uncrossed.
            assert(is_live(b.bids[p1][k1], c) && is_live(b.asks[p2][j2], c));
        }
    }
}

/// Under an incoming ask that is not refused, the book stays uncrossed and
/// its best bid and best ask keep bounding the live quotes.
pub proof fn ask_keeps_quotes(b: BookView, l: LedgerView, o: MarketOrder)
    requires
        refs_valid(b, l),
        order_refs_valid(o, l),
        quotes_hold(b, l.canceled),
        ask_effect(b, l, o).0 is Ok,
    ensures
        quotes_hold(ask_effect(b, l, o).1, l.canceled),
{
    ask_keeps_quote_bounds(b, l, o);
    ask_keeps_uncrossed(b, l, o);
}

/// Under an incoming bid that is not refused, the book stays uncrossed and
/// its best bid and best ask keep bounding the live quotes.
pub proof fn bid_keeps_quotes(b: BookView, l: LedgerView, o: MarketOrder)
    requires
        refs_valid(b, l),
        order_refs_valid(o, l),
        quotes_hold(b, l.canceled),
        bid_effect(b, l, o).0 is Ok,
    ensures
        quotes_hold(bid_effect(b, l, o).1, l.canceled),
{
    bid_keeps_quote_bounds(b, l, o);
    bid_keeps_uncrossed(b, l, o);
}

/// When an incoming ask rests a remainder at its price `p` (the asks at `p`
/// gain one order), the walk swept every bid at `p` and above: the best bid
/// afterwards is the lower of `p` and what it was, and the best ask is at
/// most `p`.
pub proof fn ask_rest_moves_best_bid(b: BookView, l: LedgerView, o: MarketOrder)
    requires
        refs_valid(b, l),
        order_refs_valid(o, l),
    ensures
        ({
            let (r, after, _) = ask_effect(b, l, o);
            let p = ask_price(b, o) as int;
            r is Ok && 0 <= p < b.asks.len() && after.asks[p].len() == b.asks[p].len() + 1 ==> {
                &&& after.lowest_bid_index == if b.lowest_bid_index > p { p } else { b.lowest_bid_index as int }
                &&& after.lowest_bid_index <= p
                &&& after.highest_ask_index <= p
            }
        }),
{
    lemma_ask_walk(b, l, o);
}

/// When an incoming bid rests a remainder at its price `p` (the bids at `p`
/// gain one order), the walk swept every ask at `p` and below: the best ask
/// afterwards is the higher of `p` and what it was, and the best bid is at
/// least `p`.
pub proof fn bid_rest_moves_best_ask(b: BookView, l: LedgerView, o: MarketOrder)
    requires
        refs_valid(b, l),
        order_refs_valid(o, l),
    ensures
        ({
            let (r, after, _) = bid_effect(b, l, o);
            let p = bid_price(b, o) as int;
            r is Ok && 0 <= p < b.bids.len() && after.bids[p].len() == b.bids[p].len() + 1 ==> {
                &&& after.highest_ask_index == if b.highest_ask_index < p { p } else { b.highest_ask_index as int }
                &&& after.highest_ask_index >= p
                &&& after.lowest_bid_index >= p
            }
        }),
{
    lemma_bid_walk(b, l, o);
}

} // verus!
