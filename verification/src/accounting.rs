use vstd::prelude::*;

use crate::exchange::QueueEntry;
use crate::ledger::transfer_money;
use crate::matching::{with_front_quantity, without_front, Trade};

verus! {

/// The sum of all balances.
pub open spec fn total(money: Seq<u64>) -> int
    decreases money.len(),
{
    if money.len() == 0 {
        0
    } else {
        total(money.drop_last()) + money.last()
    }
}

proof fn lemma_total_update(money: Seq<u64>, i: int, v: u64)
    requires
        0 <= i < money.len(),
    ensures
        total(money.update(i, v)) == total(money) - money[i] + v,
    decreases money.len(),
{
    let u = money.update(i, v);
    if i == money.len() - 1 {
        assert(u.drop_last() =~= money.drop_last());
    } else {
        lemma_total_update(money.drop_last(), i, v);
        assert(u.drop_last() =~= money.drop_last().update(i, v));
    }
}

/// `x` is the order `y`, with at most its quantity.
pub open spec fn same_order(x: QueueEntry, y: QueueEntry) -> bool {
    &&& x.is_canceled == y.is_canceled
    &&& x.money_address == y.money_address
    &&& x.quantity <= y.quantity
}

/// `a` is what is left of the queue `b` once some of its oldest orders are
/// gone and the oldest that remains has perhaps traded part of its quantity.
pub open spec fn trimmed(a: Seq<QueueEntry>, b: Seq<QueueEntry>) -> bool {
    &&& a.len() <= b.len()
    &&& forall|k: int| 1 <= k < a.len() ==> #[trigger] a[k] == b[k + b.len() - a.len()]
    &&& a.len() > 0 ==> same_order(a[0], b[b.len() - a.len()])
}

pub proof fn lemma_trimmed_refl(a: Seq<QueueEntry>)
    ensures
        trimmed(a, a),
{
}

pub proof fn lemma_trimmed_trans(a: Seq<QueueEntry>, b: Seq<QueueEntry>, c: Seq<QueueEntry>)
    requires
        trimmed(a, b),
        trimmed(b, c),
    ensures
        trimmed(a, c),
{
    assert forall|k: int| 1 <= k < a.len() implies #[trigger] a[k] == c[k + c.len() - a.len()] by {
        assert(a[k] == b[k + b.len() - a.len()]);
        let j = k + b.len() - a.len();
        assert(b[j] == c[j + c.len() - b.len()]);
    }
    if a.len() > 0 && b.len() > a.len() {
        let j = b.len() - a.len();
        assert(b[j] == c[j + c.len() - b.len()]);
    }
}

pub proof fn lemma_front_changes_trimmed(q: Seq<QueueEntry>, x: u32)
    requires
        q.len() > 0,
        x <= q[0].quantity,
    ensures
        trimmed(without_front(q), q),
        trimmed(with_front_quantity(q, x), q),
{
    let w = without_front(q);
    assert forall|k: int| 1 <= k < w.len() implies #[trigger] w[k] == q[k + q.len() - w.len()] by {
    }
}

/// Whether an order counts: its cancel flag is lowered.
pub open spec fn is_live(e: QueueEntry, canceled: Seq<bool>) -> bool {
    !canceled[e.is_canceled as int]
}

/// The quantity of the live orders of a queue.
pub open spec fn level_live(q: Seq<QueueEntry>, canceled: Seq<bool>) -> int
    decreases q.len(),
{
    if q.len() == 0 {
        0
    } else {
        (if is_live(q[0], canceled) { q[0].quantity as int } else { 0 }) + level_live(without_front(q), canceled)
    }
}

/// The quantity of all the orders of a queue, live or not.
pub open spec fn level_qty(q: Seq<QueueEntry>) -> int
    decreases q.len(),
{
    if q.len() == 0 {
        0
    } else {
        level_qty(q.drop_last()) + q.last().quantity
    }
}

/// The sum of `f` over the queues of one side of the book.
pub open spec fn side_sum(qs: Seq<Seq<QueueEntry>>, f: spec_fn(Seq<QueueEntry>) -> int) -> int
    decreases qs.len(),
{
    if qs.len() == 0 {
        0
    } else {
        side_sum(qs.drop_last(), f) + f(qs.last())
    }
}

/// The quantity of the live orders of one side of the book.
pub open spec fn side_live(qs: Seq<Seq<QueueEntry>>, canceled: Seq<bool>) -> int {
    side_sum(qs, |q: Seq<QueueEntry>| level_live(q, canceled))
}

/// The quantity of all the orders of one side of the book.
pub open spec fn side_qty(qs: Seq<Seq<QueueEntry>>) -> int {
    side_sum(qs, |q: Seq<QueueEntry>| level_qty(q))
}

pub proof fn lemma_side_sum_update(qs: Seq<Seq<QueueEntry>>, f: spec_fn(Seq<QueueEntry>) -> int, i: int, q: Seq<QueueEntry>)
    requires
        0 <= i < qs.len(),
    ensures
        side_sum(qs.update(i, q), f) == side_sum(qs, f) - f(qs[i]) + f(q),
    decreases qs.len(),
{
    let u = qs.update(i, q);
    if i == qs.len() - 1 {
        assert(u.drop_last() =~= qs.drop_last());
    } else {
        lemma_side_sum_update(qs.drop_last(), f, i, q);
        assert(u.drop_last() =~= qs.drop_last().update(i, q));
    }
}

pub proof fn lemma_level_live_front(q: Seq<QueueEntry>, x: u32, canceled: Seq<bool>)
    requires
        q.len() > 0,
    ensures
        level_live(without_front(q), canceled) == level_live(q, canceled) - (if is_live(q[0], canceled) { q[0].quantity as int } else { 0 }),
        level_live(with_front_quantity(q, x), canceled) == level_live(q, canceled) - (if is_live(q[0], canceled) { q[0].quantity - x } else { 0 }),
{
    let u = with_front_quantity(q, x);
    assert(without_front(u) =~= without_front(q));
}

pub proof fn lemma_level_qty_push(q: Seq<QueueEntry>, e: QueueEntry)
    ensures
        level_qty(q.push(e)) == level_qty(q) + e.quantity,
{
    assert(q.push(e).drop_last() =~= q);
}

/// What balance `a` receives from others over the trades `ts`.
pub open spec fn received(ts: Seq<Trade>, a: int) -> nat
    decreases ts.len(),
{
    if ts.len() == 0 {
        0
    } else {
        (if ts[0].payee == a && ts[0].payer != a { ts[0].value } else { 0 }) + received(ts.subrange(1, ts.len() as int), a)
    }
}

/// What balance `a` pays to others over the trades `ts`.
pub open spec fn paid(ts: Seq<Trade>, a: int) -> nat
    decreases ts.len(),
{
    if ts.len() == 0 {
        0
    } else {
        (if ts[0].payer == a && ts[0].payee != a { ts[0].value } else { 0 }) + paid(ts.subrange(1, ts.len() as int), a)
    }
}

pub proof fn lemma_flows_cons(t: Trade, rest: Seq<Trade>, a: int)
    ensures
        received(seq![t] + rest, a) == (if t.payee == a && t.payer != a { t.value } else { 0 }) + received(rest, a),
        paid(seq![t] + rest, a) == (if t.payer == a && t.payee != a { t.value } else { 0 }) + paid(rest, a),
        received(seq![t], a) == (if t.payee == a && t.payer != a { t.value } else { 0 }),
        paid(seq![t], a) == (if t.payer == a && t.payee != a { t.value } else { 0 }),
{
    let ts = seq![t] + rest;
    assert(ts.subrange(1, ts.len() as int) =~= rest);
    assert(ts[0] == t);
    let one = seq![t];
    assert(one[0] == t);
    assert(one.subrange(1, one.len() as int) =~= Seq::<Trade>::empty());
    assert(received(Seq::<Trade>::empty(), a) == 0);
    assert(paid(Seq::<Trade>::empty(), a) == 0);
}

/// A transfer that the payer can afford and that does not wrap the payee's
/// balance moves exactly `amount` from payer to payee, touches no other
/// balance, and keeps the sum of all balances.
pub proof fn transfer_moves_money(money: Seq<u64>, payer: int, payee: int, amount: u64)
    requires
        0 <= payer < money.len(),
        0 <= payee < money.len(),
        amount <= money[payer],
        payer == payee || money[payee] + amount <= u64::MAX,
    ensures
        ({
            let m = transfer_money(money, payer, payee, amount);
            &&& m.len() == money.len()
            &&& total(m) == total(money)
            &&& forall|a: int|
                0 <= a < money.len() ==> #[trigger] m[a] == money[a] + (if a == payee && payer != payee { amount as int } else { 0 })
                    - (if a == payer && payer != payee { amount as int } else { 0 })
        }),
{
    if payer != payee {
        let m1 = money.update(payer, (money[payer] - amount) as u64);
        lemma_total_update(money, payer, (money[payer] - amount) as u64);
        lemma_total_update(m1, payee, (money[payee] + amount) as u64);
    }
}

} // verus!
