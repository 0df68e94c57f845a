use std::collections::VecDeque;
use vstd::prelude::*;

use crate::ledger::{transfer_money, Ledger, LedgerView};
use crate::corporation::STARTING_PRICE;
use crate::laws::{ask_keeps_quotes, bid_keeps_quotes, quotes_hold};
use crate::matching::{sweep, MatchError, Sweep, SweepEnd};

verus! {

/// Which side of the book an order is for.
#[derive(Clone, Copy, Debug, PartialEq, Eq, Structural)]
pub enum OrderType {
    Ask,
    Bid,
}

/// An order as a trader hands it to the exchange. A price of 0 marks a market
/// order; any other price is a limit. `is_canceled` and `money_address` are
/// handles into the [`Ledger`]: the order's cancel flag and the trader's balance.
#[derive(Clone, Copy, Debug, PartialEq, Eq, Structural)]
pub struct MarketOrder {
    pub order_type: OrderType,
    pub price: u64,
    pub is_canceled: usize,
    pub quantity: u32,
    pub money_address: usize,
}

/// A record of a trade: its side, the money that changed hands, the quantity
/// of the order that caused it, and when it happened.
#[derive(Clone, Copy, Debug, PartialEq, Eq, Structural)]
pub struct HistoryEntry {
    pub order_type: OrderType,
    pub price: u64,
    pub quantity: u32,
    pub timestamp: u64,
}

/// An order resting in the book at some price level.
#[derive(Clone, Copy, Debug, PartialEq, Eq, Structural)]
pub struct QueueEntry {
    pub is_canceled: usize,
    pub quantity: u32,
    pub money_address: usize,
}

/// One price level: the bids and the asks resting there, oldest first.
pub struct BookEntry {
    pub bids: VecDeque<QueueEntry>,
    pub asks: VecDeque<QueueEntry>,
}

impl BookEntry {
    /// An empty price level.
    pub fn new() -> (e: Self)
        ensures
            e.bids@ == Seq::<QueueEntry>::empty(),
            e.asks@ == Seq::<QueueEntry>::empty(),
    {
        let bids: VecDeque<QueueEntry> = VecDeque::new();
        let asks: VecDeque<QueueEntry> = VecDeque::new();
        BookEntry { bids, asks }
    }
}

/// The number of price levels in a book: prices 0 to `BOOK_SIZE - 1`.
pub const BOOK_SIZE: usize = 32768;

/// The limit order book: a queue of bids and a queue of asks for every price
/// level, oldest first, and four price markers. `lowest_bid_index` is the best
/// bid and `highest_ask_index` the best ask: an incoming ask sells into the
/// bids from the best bid down, an incoming bid buys from the asks from the
/// best ask up. `highest_bid_index` and `lowest_ask_index` are the outer edges
/// of the bids and of the asks, the limits of market orders.
pub struct Book {
    highest_ask_index: usize,
    lowest_ask_index: usize,
    highest_bid_index: usize,
    lowest_bid_index: usize,
    table: Vec<BookEntry>,
}

/// The abstract state of a [`Book`]: the four markers and, for each price
/// level, its queue of bids and its queue of asks.
pub struct BookView {
    pub highest_ask_index: usize,
    pub lowest_ask_index: usize,
    pub highest_bid_index: usize,
    pub lowest_bid_index: usize,
    pub bids: Seq<Seq<QueueEntry>>,
    pub asks: Seq<Seq<QueueEntry>>,
}

impl View for Book {
    type V = BookView;

    closed spec fn view(&self) -> BookView {
        BookView {
            highest_ask_index: self.highest_ask_index,
            lowest_ask_index: self.lowest_ask_index,
            highest_bid_index: self.highest_bid_index,
            lowest_bid_index: self.lowest_bid_index,
            bids: Seq::new(self.table@.len(), |i: int| self.table@[i].bids@),
            asks: Seq::new(self.table@.len(), |i: int| self.table@[i].asks@),
        }
    }
}

/// The queues of one side: the bids when `bids` holds, else the asks.
pub open spec fn side(b: BookView, bids: bool) -> Seq<Seq<QueueEntry>> {
    if bids {
        b.bids
    } else {
        b.asks
    }
}

/// A book of `BOOK_SIZE` price levels on each side.
pub open spec fn book_shaped(b: BookView) -> bool {
    &&& b.bids.len() == BOOK_SIZE
    &&& b.asks.len() == BOOK_SIZE
}

/// Every handle in a queue names an entry of the ledger.
pub open spec fn queue_refs_valid(q: Seq<QueueEntry>, l: LedgerView) -> bool {
    forall|k: int|
        0 <= k < q.len() ==> {
            &&& (#[trigger] q[k]).money_address < l.money.len()
            &&& q[k].is_canceled < l.canceled.len()
        }
}

/// Every handle in every queue of the book names an entry of the ledger.
pub open spec fn refs_valid(b: BookView, l: LedgerView) -> bool {
    &&& forall|p: int| 0 <= p < b.bids.len() ==> queue_refs_valid(#[trigger] b.bids[p], l)
    &&& forall|p: int| 0 <= p < b.asks.len() ==> queue_refs_valid(#[trigger] b.asks[p], l)
}

/// The handles of an order name entries of the ledger.
pub open spec fn order_refs_valid(o: MarketOrder, l: LedgerView) -> bool {
    &&& o.money_address < l.money.len()
    &&& o.is_canceled < l.canceled.len()
}

impl Book {
    /// A book of `BOOK_SIZE` empty price levels with the given markers.
    pub fn new(
        highest_ask_index: usize,
        lowest_ask_index: usize,
        highest_bid_index: usize,
        lowest_bid_index: usize,
    ) -> (book: Book)
        ensures
            book@.highest_ask_index == highest_ask_index,
            book@.lowest_ask_index == lowest_ask_index,
            book@.highest_bid_index == highest_bid_index,
            book@.lowest_bid_index == lowest_bid_index,
            book_shaped(book@),
            forall|p: int| 0 <= p < BOOK_SIZE ==> #[trigger] book@.bids[p] == Seq::<QueueEntry>::empty(),
            forall|p: int| 0 <= p < BOOK_SIZE ==> #[trigger] book@.asks[p] == Seq::<QueueEntry>::empty(),
    {
        let mut table: Vec<BookEntry> = Vec::new();
        let mut i: usize = 0;
        while i < BOOK_SIZE
            invariant
                i <= BOOK_SIZE,
                table@.len() == i,
                forall|p: int| 0 <= p < i ==> (#[trigger] table@[p]).bids@ == Seq::<QueueEntry>::empty(),
                forall|p: int| 0 <= p < i ==> (#[trigger] table@[p]).asks@ == Seq::<QueueEntry>::empty(),
            decreases BOOK_SIZE - i,
        {
            table.push(BookEntry::new());
            i = i + 1;
        }
        Book { highest_ask_index, lowest_ask_index, highest_bid_index, lowest_bid_index, table }
    }

    /// The best ask: where incoming bids start buying.
    pub fn highest_ask_index(&self) -> (r: usize)
        ensures
            r == self@.highest_ask_index,
    {
        self.highest_ask_index
    }

    /// The outer edge of the asks: how far up a market bid buys.
    pub fn lowest_ask_index(&self) -> (r: usize)
        ensures
            r == self@.lowest_ask_index,
    {
        self.lowest_ask_index
    }

    /// The outer edge of the bids: how far down a market ask sells.
    pub fn highest_bid_index(&self) -> (r: usize)
        ensures
            r == self@.highest_bid_index,
    {
        self.highest_bid_index
    }

    /// The best bid: where incoming asks start selling.
    pub fn lowest_bid_index(&self) -> (r: usize)
        ensures
            r == self@.lowest_bid_index,
    {
        self.lowest_bid_index
    }

    /// The number of orders resting on one side of a level.
    pub fn queue_len(&self, bids: bool, index: usize) -> (n: usize)
        requires
            index < side(self@, bids).len(),
        ensures
            n == side(self@, bids)[index as int].len(),
    {
        if bids {
            self.table[index].bids.len()
        } else {
            self.table[index].asks.len()
        }
    }

    /// The `k`-th oldest order resting on one side of a level.
    pub fn queue_entry(&self, bids: bool, index: usize, k: usize) -> (e: QueueEntry)
        requires
            index < side(self@, bids).len(),
            k < side(self@, bids)[index as int].len(),
        ensures
            e == side(self@, bids)[index as int][k as int],
    {
        if bids {
            self.table[index].bids[k]
        } else {
            self.table[index].asks[k]
        }
    }

    fn pop_front(&mut self, bids: bool, index: usize)
        requires
            index < side(old(self)@, bids).len(),
            side(old(self)@, bids)[index as int].len() > 0,
        ensures
            side(final(self)@, bids) == side(old(self)@, bids).update(
                index as int,
                side(old(self)@, bids)[index as int].subrange(
                    1,
                    side(old(self)@, bids)[index as int].len() as int,
                ),
            ),
            side(final(self)@, !bids) == side(old(self)@, !bids),
            final(self)@.highest_ask_index == old(self)@.highest_ask_index,
            final(self)@.lowest_ask_index == old(self)@.lowest_ask_index,
            final(self)@.highest_bid_index == old(self)@.highest_bid_index,
            final(self)@.lowest_bid_index == old(self)@.lowest_bid_index,
    {
        if bids {
            self.table[index].bids.pop_front();
        } else {
            self.table[index].asks.pop_front();
        }
        proof {
            assert(side(self@, bids) =~= side(old(self)@, bids).update(
                index as int,
                side(old(self)@, bids)[index as int].subrange(
                    1,
                    side(old(self)@, bids)[index as int].len() as int,
                ),
            ));
            assert(side(self@, !bids) =~= side(old(self)@, !bids));
        }
    }

    fn set_front(&mut self, bids: bool, index: usize, e: QueueEntry)
        requires
            index < side(old(self)@, bids).len(),
            side(old(self)@, bids)[index as int].len() > 0,
        ensures
            side(final(self)@, bids) == side(old(self)@, bids).update(
                index as int,
                side(old(self)@, bids)[index as int].update(0, e),
            ),
            side(final(self)@, !bids) == side(old(self)@, !bids),
            final(self)@.highest_ask_index == old(self)@.highest_ask_index,
            final(self)@.lowest_ask_index == old(self)@.lowest_ask_index,
            final(self)@.highest_bid_index == old(self)@.highest_bid_index,
            final(self)@.lowest_bid_index == old(self)@.lowest_bid_index,
    {
        if bids {
            self.table[index].bids.pop_front();
            self.table[index].bids.push_front(e);
        } else {
            self.table[index].asks.pop_front();
            self.table[index].asks.push_front(e);
        }
        proof {
            let q = side(old(self)@, bids)[index as int];
            assert(seq![e] + q.subrange(1, q.len() as int) =~= q.update(0, e));
            assert(side(self@, bids) =~= side(old(self)@, bids).update(index as int, q.update(0, e)));
            assert(side(self@, !bids) =~= side(old(self)@, !bids));
        }
    }

    fn push_back(&mut self, bids: bool, index: usize, e: QueueEntry)
        requires
            index < side(old(self)@, bids).len(),
        ensures
            side(final(self)@, bids) == side(old(self)@, bids).update(
                index as int,
                side(old(self)@, bids)[index as int].push(e),
            ),
            side(final(self)@, !bids) == side(old(self)@, !bids),
            final(self)@.highest_ask_index == old(self)@.highest_ask_index,
            final(self)@.lowest_ask_index == old(self)@.lowest_ask_index,
            final(self)@.highest_bid_index == old(self)@.highest_bid_index,
            final(self)@.lowest_bid_index == old(self)@.lowest_bid_index,
    {
        if bids {
            self.table[index].bids.push_back(e);
        } else {
            self.table[index].asks.push_back(e);
        }
        proof {
            assert(side(self@, bids) =~= side(old(self)@, bids).update(
                index as int,
                side(old(self)@, bids)[index as int].push(e),
            ));
            assert(side(self@, !bids) =~= side(old(self)@, !bids));
        }
    }
}

/// The book `b` with the queues of side `ask` replaced by `queues`.
spec fn old_side_view(queues: Seq<Seq<QueueEntry>>, b: BookView, ask: bool) -> BookView {
    if ask {
        BookView { bids: queues, ..b }
    } else {
        BookView { asks: queues, ..b }
    }
}

/// Dropping the oldest order of a queue, or changing its quantity, keeps the
/// queue's handles valid.
proof fn lemma_front_changes_keep_refs(q: Seq<QueueEntry>, l: LedgerView)
    requires
        queue_refs_valid(q, l),
        q.len() > 0,
    ensures
        forall|x: u32| queue_refs_valid(#[trigger] crate::matching::with_front_quantity(q, x), l),
        queue_refs_valid(crate::matching::without_front(q), l),
{
    assert forall|x: u32| queue_refs_valid(#[trigger] crate::matching::with_front_quantity(q, x), l) by {
        let u = crate::matching::with_front_quantity(q, x);
        assert forall|k: int| 0 <= k < u.len() implies {
            &&& (#[trigger] u[k]).money_address < l.money.len()
            &&& u[k].is_canceled < l.canceled.len()
        } by {
            assert(q[k].money_address == u[k].money_address);
        }
    }
    let w = crate::matching::without_front(q);
    assert forall|k: int| 0 <= k < w.len() implies {
        &&& (#[trigger] w[k]).money_address < l.money.len()
        &&& w[k].is_canceled < l.canceled.len()
    } by {
        assert(w[k] == q[k + 1]);
    }
}

/// Replacing one queue of one side by a queue with valid handles keeps the
/// book's handles valid.
proof fn lemma_side_update_keeps_refs(before: BookView, after: BookView, l: LedgerView, ask: bool, index: int)
    requires
        refs_valid(before, l),
        side(after, !ask) == side(before, !ask),
        side(after, ask).len() == side(before, ask).len(),
        forall|p: int| 0 <= p < side(after, ask).len() && p != index ==> side(after, ask)[p] == side(before, ask)[p],
        0 <= index < side(after, ask).len() ==> queue_refs_valid(side(after, ask)[index], l),
    ensures
        refs_valid(after, l),
{
    assert forall|p: int| 0 <= p < side(after, ask).len() implies queue_refs_valid(#[trigger] side(after, ask)[p], l) by {
        if p != index {
            assert(side(after, ask)[p] == side(before, ask)[p]);
            assert(queue_refs_valid(side(before, ask)[p], l));
        }
    }
    if ask {
        assert forall|p: int| 0 <= p < after.bids.len() implies queue_refs_valid(#[trigger] after.bids[p], l) by {
            assert(queue_refs_valid(side(after, ask)[p], l));
        }
    } else {
        assert forall|p: int| 0 <= p < after.asks.len() implies queue_refs_valid(#[trigger] after.asks[p], l) by {
            assert(queue_refs_valid(side(after, ask)[p], l));
        }
    }
}

/// Walks an incoming order of side `ask` along the opposite side of the book
/// from level `start`, as [`sweep`] says; returns how the walk ended, the level
/// it ended at and the quantity left.
fn sweep_book(
    book: &mut Book,
    ledger: &mut Ledger,
    ask: bool,
    start: usize,
    price: usize,
    quantity: u32,
    taker: usize,
) -> (r: (SweepEnd, usize, u32))
    requires
        book_shaped(old(book)@),
        refs_valid(old(book)@, old(ledger)@),
        taker < old(ledger)@.money.len(),
    ensures
        ({
            let (end, s) = sweep(
                Sweep { queues: side(old(book)@, ask), money: old(ledger)@.money, index: start as int, remaining: quantity },
                ask,
                price as int,
                taker as int,
                old(ledger)@.canceled,
            );
            &&& r.0 == end
            &&& r.1 as int == s.index
            &&& r.2 == s.remaining
            &&& side(final(book)@, ask) == s.queues
            &&& final(ledger)@.money == s.money
        }),
        side(final(book)@, !ask) == side(old(book)@, !ask),
        final(book)@.highest_ask_index == old(book)@.highest_ask_index,
        final(book)@.lowest_ask_index == old(book)@.lowest_ask_index,
        final(book)@.highest_bid_index == old(book)@.highest_bid_index,
        final(book)@.lowest_bid_index == old(book)@.lowest_bid_index,
        final(ledger)@.canceled == old(ledger)@.canceled,
        final(ledger)@.money.len() == old(ledger)@.money.len(),
        r.0 == SweepEnd::Filled ==> r.1 < BOOK_SIZE,
        book_shaped(final(book)@),
        refs_valid(final(book)@, final(ledger)@),
{
    let ghost init = Sweep {
        queues: side(book@, ask),
        money: ledger@.money,
        index: start as int,
        remaining: quantity,
    };
    let ghost goal = sweep(init, ask, price as int, taker as int, ledger@.canceled);
    let ghost other = side(book@, !ask);
    let ghost markers = (
        book@.highest_ask_index,
        book@.lowest_ask_index,
        book@.highest_bid_index,
        book@.lowest_bid_index,
    );
    let ghost canceled = ledger@.canceled;
    let mut index: usize = start;
    let mut remaining: u32 = quantity;
    loop
        invariant
            goal == sweep(
                Sweep { queues: side(old(book)@, ask), money: old(ledger)@.money, index: start as int, remaining: quantity },
                ask,
                price as int,
                taker as int,
                old(ledger)@.canceled,
            ),
            other == side(old(book)@, !ask),
            canceled == old(ledger)@.canceled,
            ledger@.money.len() == old(ledger)@.money.len(),
            markers == (
                old(book)@.highest_ask_index,
                old(book)@.lowest_ask_index,
                old(book)@.highest_bid_index,
                old(book)@.lowest_bid_index,
            ),
            book_shaped(book@),
            refs_valid(book@, ledger@),
            taker < ledger@.money.len(),
            ledger@.canceled == canceled,
            side(book@, !ask) == other,
            markers == (
                book@.highest_ask_index,
                book@.lowest_ask_index,
                book@.highest_bid_index,
                book@.lowest_bid_index,
            ),
            sweep(
                Sweep { queues: side(book@, ask), money: ledger@.money, index: index as int, remaining },
                ask,
                price as int,
                taker as int,
                canceled,
            ) == goal,
        decreases
            (if ask { index as int } else { BOOK_SIZE - index }),
            side(book@, ask)[index as int].len(),
            remaining,
    {
        let ghost cur = Sweep {
            queues: side(book@, ask),
            money: ledger@.money,
            index: index as int,
            remaining,
        };
        if (ask && index < price) || (!ask && index > price) {
            return (SweepEnd::Exhausted, index, remaining);
        }
        if index >= BOOK_SIZE {
            return (SweepEnd::Fault(MatchError::IndexOutOfBook), index, remaining);
        }
        if book.queue_len(ask, index) == 0 {
            if ask {
                if index == 0 {
                    return (SweepEnd::Fault(MatchError::IndexUnderflow), index, remaining);
                }
                index = index - 1;
            } else {
                index = index + 1;
            }
            continue;
        }
        let maker = book.queue_entry(ask, index, 0);
        proof {
            lemma_front_changes_keep_refs(cur.queues[index as int], ledger@);
        }
        if ledger.is_canceled(maker.is_canceled) {
            book.pop_front(ask, index);
            proof {
                lemma_side_update_keeps_refs(old_side_view(cur.queues, book@, ask), book@, ledger@, ask, index as int);
            }
            continue;
        }
        let traded: u32 = if maker.quantity < remaining { maker.quantity } else { remaining };
        assert(traded as int * index as int <= u32::MAX as int * BOOK_SIZE) by (nonlinear_arith)
            requires traded <= u32::MAX, index < BOOK_SIZE;
        let value: u64 = traded as u64 * index as u64;
        let payer = if ask { maker.money_address } else { taker };
        let payee = if ask { taker } else { maker.money_address };
        if value > ledger.balance(payer) {
            return (SweepEnd::Unaffordable, index, remaining);
        }
        let left: u32 = maker.quantity - traded;
        if left == 0 {
            book.pop_front(ask, index);
        } else {
            book.set_front(ask, index, QueueEntry { quantity: left, ..maker });
        }
        proof {
            lemma_side_update_keeps_refs(old_side_view(cur.queues, book@, ask), book@, ledger@, ask, index as int);
        }
        remaining = remaining - traded;
        ledger.transfer(payer, payee, value);
        if remaining == 0 {
            return (SweepEnd::Filled, index, remaining);
        }
    }
}

/// The lowest level an incoming ask sells down to: its own price for a limit
/// ask; the outer edge of the bids (`highest_bid_index`) for a market ask.
pub open spec fn ask_price(b: BookView, o: MarketOrder) -> usize {
    if o.price == 0 {
        b.highest_bid_index
    } else {
        o.price as usize
    }
}

/// The highest level an incoming bid buys up to: its own price for a limit
/// bid; the outer edge of the asks (`lowest_ask_index`) for a market bid.
pub open spec fn bid_price(b: BookView, o: MarketOrder) -> usize {
    if o.price == 0 {
        b.lowest_ask_index
    } else {
        o.price as usize
    }
}

/// What rests in the book of an order that has `remaining` left.
pub open spec fn resting(o: MarketOrder, remaining: u32) -> QueueEntry {
    QueueEntry { is_canceled: o.is_canceled, quantity: remaining, money_address: o.money_address }
}

/// The walk of an incoming ask down the bids, from the best bid to its price.
pub open spec fn ask_walk(b: BookView, l: LedgerView, o: MarketOrder) -> (SweepEnd, Sweep) {
    sweep(
        Sweep { queues: b.bids, money: l.money, index: b.lowest_bid_index as int, remaining: o.quantity },
        true,
        ask_price(b, o) as int,
        o.money_address as int,
        l.canceled,
    )
}

/// The walk of an incoming bid up the asks, from the best ask to its price.
pub open spec fn bid_walk(b: BookView, l: LedgerView, o: MarketOrder) -> (SweepEnd, Sweep) {
    sweep(
        Sweep { queues: b.asks, money: l.money, index: b.highest_ask_index as int, remaining: o.quantity },
        false,
        bid_price(b, o) as int,
        o.money_address as int,
        l.canceled,
    )
}

/// What an incoming ask does: the outcome, the book after it and the balances
/// after it.
///
/// It sells into the bids from the best bid (`lowest_bid_index`) down to its
/// price ([`sweep`]). Filled at some level, that level becomes the best bid.
/// Walked past its price, the best bid comes down to its price if it was
/// above it and the rest of the ask (possibly of quantity 0) joins the back
/// of the asks at its price, which becomes the best ask (`highest_ask_index`)
/// when that was above it. A price outside the book is refused at that
/// point. Stopped by a bidder who cannot pay, nothing more happens.
pub open spec fn ask_effect(b: BookView, l: LedgerView, o: MarketOrder) -> (Result<(), MatchError>, BookView, Seq<u64>) {
    let price = ask_price(b, o);
    let (end, s) = ask_walk(b, l, o);
    let swept = BookView { bids: s.queues, ..b };
    match end {
        SweepEnd::Unaffordable => (Ok(()), swept, s.money),
        SweepEnd::Filled => (Ok(()), BookView { lowest_bid_index: s.index as usize, ..swept }, s.money),
        SweepEnd::Exhausted => {
            let rested = BookView {
                lowest_bid_index: if b.lowest_bid_index > price { price } else { b.lowest_bid_index },
                ..swept
            };
            if price >= b.asks.len() {
                (Err(MatchError::IndexOutOfBook), rested, s.money)
            } else {
                (
                    Ok(()),
                    BookView {
                        asks: b.asks.update(price as int, b.asks[price as int].push(resting(o, s.remaining))),
                        highest_ask_index: if b.highest_ask_index > price { price } else { b.highest_ask_index },
                        ..rested
                    },
                    s.money,
                )
            }
        },
        SweepEnd::Fault(e) => (Err(e), swept, s.money),
    }
}

/// What an incoming bid does: the outcome, the book after it and the balances
/// after it.
///
/// It buys from the asks from the best ask (`highest_ask_index`) up to its
/// price ([`sweep`]). Filled at some level, that level becomes the best ask.
/// Walked past its price, the best ask goes up to its price if it was below
/// it and the rest of the bid (possibly of quantity 0) joins the back of the
/// bids at its price, which becomes the best bid (`lowest_bid_index`) when
/// that was below it. A price outside the book is refused at that point.
/// Stopped when the bidder cannot pay, nothing more happens.
pub open spec fn bid_effect(b: BookView, l: LedgerView, o: MarketOrder) -> (Result<(), MatchError>, BookView, Seq<u64>) {
    let price = bid_price(b, o);
    let (end, s) = bid_walk(b, l, o);
    let swept = BookView { asks: s.queues, ..b };
    match end {
        SweepEnd::Unaffordable => (Ok(()), swept, s.money),
        SweepEnd::Filled => (Ok(()), BookView { highest_ask_index: s.index as usize, ..swept }, s.money),
        SweepEnd::Exhausted => {
            let rested = BookView {
                highest_ask_index: if b.highest_ask_index < price { price } else { b.highest_ask_index },
                ..swept
            };
            if price >= b.bids.len() {
                (Err(MatchError::IndexOutOfBook), rested, s.money)
            } else {
                (
                    Ok(()),
                    BookView {
                        bids: b.bids.update(price as int, b.bids[price as int].push(resting(o, s.remaining))),
                        lowest_bid_index: if b.lowest_bid_index < price { price } else { b.lowest_bid_index },
                        ..rested
                    },
                    s.money,
                )
            }
        },
        SweepEnd::Fault(e) => (Err(e), swept, s.money),
    }
}

/// Matches an incoming ask against the bids and rests what is left of it, as
/// [`ask_effect`] says. An `Err` names the state in which the engine cannot go
/// on; the book and balances are then as they were at that point.
pub fn handle_ask(market_order: MarketOrder, order_book: &mut Book, ledger: &mut Ledger) -> (r: Result<(), MatchError>)
    requires
        book_shaped(old(order_book)@),
        refs_valid(old(order_book)@, old(ledger)@),
        order_refs_valid(market_order, old(ledger)@),
    ensures
        (r, final(order_book)@, final(ledger)@.money) == ask_effect(old(order_book)@, old(ledger)@, market_order),
        markers_in_book(old(order_book)@) && r is Ok ==> markers_in_book(final(order_book)@),
        final(ledger)@.canceled == old(ledger)@.canceled,
        book_shaped(final(order_book)@),
        refs_valid(final(order_book)@, final(ledger)@),
{
    let price: usize = if market_order.price == 0 {
        order_book.highest_bid_index
    } else {
        #[verifier::truncate] (market_order.price as usize)
    };
    let start = order_book.lowest_bid_index;
    let (end, index, remaining) = sweep_book(
        order_book,
        ledger,
        true,
        start,
        price,
        market_order.quantity,
        market_order.money_address,
    );
    match end {
        SweepEnd::Unaffordable => Ok(()),
        SweepEnd::Filled => {
            order_book.lowest_bid_index = index;
            Ok(())
        },
        SweepEnd::Exhausted => {
            if order_book.lowest_bid_index > price {
                order_book.lowest_bid_index = price;
            }
            if price >= BOOK_SIZE {
                return Err(MatchError::IndexOutOfBook);
            }
            let queue_entry = QueueEntry {
                is_canceled: market_order.is_canceled,
                quantity: remaining,
                money_address: market_order.money_address,
            };
            let ghost before = order_book@;
            order_book.push_back(false, price, queue_entry);
            if order_book.highest_ask_index > price {
                order_book.highest_ask_index = price;
            }
            proof {
                assert(queue_refs_valid(side(before, false)[price as int], ledger@));
                assert(queue_refs_valid(side(before, false)[price as int].push(queue_entry), ledger@));
                lemma_side_update_keeps_refs(before, order_book@, ledger@, false, price as int);
            }
            Ok(())
        },
        SweepEnd::Fault(e) => Err(e),
    }
}

/// Matches an incoming bid against the asks and rests what is left of it, as
/// [`bid_effect`] says. An `Err` names the state in which the engine cannot go
/// on; the book and balances are then as they were at that point.
pub fn handle_bid(market_order: MarketOrder, order_book: &mut Book, ledger: &mut Ledger) -> (r: Result<(), MatchError>)
    requires
        book_shaped(old(order_book)@),
        refs_valid(old(order_book)@, old(ledger)@),
        order_refs_valid(market_order, old(ledger)@),
    ensures
        (r, final(order_book)@, final(ledger)@.money) == bid_effect(old(order_book)@, old(ledger)@, market_order),
        markers_in_book(old(order_book)@) && r is Ok ==> markers_in_book(final(order_book)@),
        final(ledger)@.canceled == old(ledger)@.canceled,
        book_shaped(final(order_book)@),
        refs_valid(final(order_book)@, final(ledger)@),
{
    let price: usize = if market_order.price == 0 {
        order_book.lowest_ask_index
    } else {
        #[verifier::truncate] (market_order.price as usize)
    };
    let start = order_book.highest_ask_index;
    let (end, index, remaining) = sweep_book(
        order_book,
        ledger,
        false,
        start,
        price,
        market_order.quantity,
        market_order.money_address,
    );
    match end {
        SweepEnd::Unaffordable => Ok(()),
        SweepEnd::Filled => {
            order_book.highest_ask_index = index;
            Ok(())
        },
        SweepEnd::Exhausted => {
            if order_book.highest_ask_index < price {
                order_book.highest_ask_index = price;
            }
            if price >= BOOK_SIZE {
                return Err(MatchError::IndexOutOfBook);
            }
            let queue_entry = QueueEntry {
                is_canceled: market_order.is_canceled,
                quantity: remaining,
                money_address: market_order.money_address,
            };
            let ghost before = order_book@;
            order_book.push_back(true, price, queue_entry);
            if order_book.lowest_bid_index < price {
                order_book.lowest_bid_index = price;
            }
            proof {
                assert(queue_refs_valid(side(before, true)[price as int], ledger@));
                assert(queue_refs_valid(side(before, true)[price as int].push(queue_entry), ledger@));
                lemma_side_update_keeps_refs(before, order_book@, ledger@, true, price as int);
            }
            Ok(())
        },
        SweepEnd::Fault(e) => Err(e),
    }
}

/// The two markers that a tick report reads lie inside the book.
pub open spec fn markers_in_book(b: BookView) -> bool {
    &&& b.highest_ask_index < BOOK_SIZE
    &&& b.lowest_bid_index < BOOK_SIZE
}

/// Makes a limit ask for `quantity` at `price`, carrying the cancel flag
/// `is_canceled` and the balance `money_address`; the caller hands it to the
/// exchange. An order must not be made with a raised cancel flag.
pub fn limit_ask(price: u64, is_canceled: usize, quantity: u32, money_address: usize, ledger: &Ledger) -> (order: MarketOrder)
    requires
        is_canceled < ledger@.canceled.len(),
        !ledger@.canceled[is_canceled as int],
    ensures
        order == (MarketOrder { order_type: OrderType::Ask, price, is_canceled, quantity, money_address }),
{
    MarketOrder { order_type: OrderType::Ask, price, is_canceled, quantity, money_address }
}

/// Makes a limit bid for `quantity` at `price`, carrying the cancel flag
/// `is_canceled` and the balance `money_address`; the caller hands it to the
/// exchange. An order must not be made with a raised cancel flag.
pub fn limit_bid(price: u64, is_canceled: usize, quantity: u32, money_address: usize, ledger: &Ledger) -> (order: MarketOrder)
    requires
        is_canceled < ledger@.canceled.len(),
        !ledger@.canceled[is_canceled as int],
    ensures
        order == (MarketOrder { order_type: OrderType::Bid, price, is_canceled, quantity, money_address }),
{
    MarketOrder { order_type: OrderType::Bid, price, is_canceled, quantity, money_address }
}

/// Makes a market ask: a limit ask at price 0.
pub fn ask(is_canceled: usize, quantity: u32, money_address: usize, ledger: &Ledger) -> (order: MarketOrder)
    requires
        is_canceled < ledger@.canceled.len(),
        !ledger@.canceled[is_canceled as int],
    ensures
        order == (MarketOrder { order_type: OrderType::Ask, price: 0, is_canceled, quantity, money_address }),
{
    limit_ask(0, is_canceled, quantity, money_address, ledger)
}

/// Makes a market bid: a limit bid at price 0.
pub fn bid(is_canceled: usize, quantity: u32, money_address: usize, ledger: &Ledger) -> (order: MarketOrder)
    requires
        is_canceled < ledger@.canceled.len(),
        !ledger@.canceled[is_canceled as int],
    ensures
        order == (MarketOrder { order_type: OrderType::Bid, price: 0, is_canceled, quantity, money_address }),
{
    limit_bid(0, is_canceled, quantity, money_address, ledger)
}

/// How far on each side of the starting price the book is seeded.
pub const INIT_RADIUS: usize = 50;

/// The quantity of each seeded order.
pub const INIT_QUANTITY: u32 = 200;

/// The balance behind each seeded order.
pub const INIT_BALANCE: u64 = 1_000_000_000;

/// The seeded order that holds balance `money_address` and cancel flag `is_canceled`.
pub open spec fn seed(money_address: int, is_canceled: int) -> QueueEntry {
    QueueEntry { is_canceled: is_canceled as usize, quantity: INIT_QUANTITY, money_address: money_address as usize }
}

/// The asks after seeding: one seeded order joins each level from the
/// starting price + 1 to the starting price + `INIT_RADIUS`, the one at
/// starting price + 1 + k holding the k-th new balance and flag.
pub open spec fn seeded_asks(asks: Seq<Seq<QueueEntry>>, m: int, c: int) -> Seq<Seq<QueueEntry>> {
    Seq::new(
        asks.len(),
        |p: int|
            if STARTING_PRICE + 1 <= p <= STARTING_PRICE + INIT_RADIUS {
                asks[p].push(seed(m + (p - STARTING_PRICE - 1), c + (p - STARTING_PRICE - 1)))
            } else {
                asks[p]
            },
    )
}

/// The bids after seeding: one seeded order joins each level from the
/// starting price - `INIT_RADIUS` to the starting price - 1, the one at
/// starting price - `INIT_RADIUS` + k holding the (`INIT_RADIUS` + k)-th new
/// balance and flag.
pub open spec fn seeded_bids(bids: Seq<Seq<QueueEntry>>, m: int, c: int) -> Seq<Seq<QueueEntry>> {
    Seq::new(
        bids.len(),
        |p: int|
            if STARTING_PRICE - INIT_RADIUS <= p <= STARTING_PRICE - 1 {
                bids[p].push(
                    seed(
                        m + INIT_RADIUS + (p - (STARTING_PRICE - INIT_RADIUS)),
                        c + INIT_RADIUS + (p - (STARTING_PRICE - INIT_RADIUS)),
                    ),
                )
            } else {
                bids[p]
            },
    )
}

/// Seeds the book around the starting price: the best ask is one above it and
/// the best bid one below it, and each of the `INIT_RADIUS` levels on either
/// side gets one order of `INIT_QUANTITY` backed by a new balance of
/// `INIT_BALANCE` and a new lowered cancel flag.
pub fn init_exchange(book: &mut Book, ledger: &mut Ledger)
    requires
        book_shaped(old(book)@),
        refs_valid(old(book)@, old(ledger)@),
        old(ledger)@.money.len() + 2 * INIT_RADIUS <= usize::MAX,
        old(ledger)@.canceled.len() + 2 * INIT_RADIUS <= usize::MAX,
    ensures
        final(book)@.highest_ask_index == STARTING_PRICE + 1,
        final(book)@.lowest_bid_index == STARTING_PRICE - 1,
        final(book)@.lowest_ask_index == STARTING_PRICE + INIT_RADIUS,
        final(book)@.highest_bid_index == STARTING_PRICE - INIT_RADIUS,
        final(book)@.asks == seeded_asks(old(book)@.asks, old(ledger)@.money.len() as int, old(ledger)@.canceled.len() as int),
        final(book)@.bids == seeded_bids(old(book)@.bids, old(ledger)@.money.len() as int, old(ledger)@.canceled.len() as int),
        final(ledger)@.money == old(ledger)@.money + Seq::new((2 * INIT_RADIUS) as nat, |k: int| INIT_BALANCE),
        final(ledger)@.canceled == old(ledger)@.canceled + Seq::new((2 * INIT_RADIUS) as nat, |k: int| false),
        book_shaped(final(book)@),
        refs_valid(final(book)@, final(ledger)@),
{
    let mid: usize = STARTING_PRICE as usize;
    book.highest_ask_index = mid + 1;
    book.lowest_bid_index = mid - 1;
    book.lowest_ask_index = mid + INIT_RADIUS;
    book.highest_bid_index = mid - INIT_RADIUS;
    let ghost m0 = ledger@.money.len() as int;
    let ghost c0 = ledger@.canceled.len() as int;
    let ghost asks0 = book@.asks;
    let ghost bids0 = book@.bids;
    let mut price: usize = mid + 1;
    while price <= mid + INIT_RADIUS
        invariant
            mid == STARTING_PRICE,
            STARTING_PRICE + 1 <= price <= STARTING_PRICE + INIT_RADIUS + 1,
            m0 == old(ledger)@.money.len(),
            c0 == old(ledger)@.canceled.len(),
            asks0 == old(book)@.asks,
            bids0 == old(book)@.bids,
            book_shaped(book@),
            book@.bids == bids0,
            book@.highest_ask_index == STARTING_PRICE + 1,
            book@.lowest_bid_index == STARTING_PRICE - 1,
            book@.lowest_ask_index == STARTING_PRICE + INIT_RADIUS,
            book@.highest_bid_index == STARTING_PRICE - INIT_RADIUS,
            ledger@.money == old(ledger)@.money + Seq::new((price - STARTING_PRICE - 1) as nat, |k: int| INIT_BALANCE),
            ledger@.canceled == old(ledger)@.canceled + Seq::new((price - STARTING_PRICE - 1) as nat, |k: int| false),
            forall|p: int|
                0 <= p < BOOK_SIZE ==> #[trigger] book@.asks[p] == if STARTING_PRICE + 1 <= p < price {
                    asks0[p].push(seed(m0 + (p - STARTING_PRICE - 1), c0 + (p - STARTING_PRICE - 1)))
                } else {
                    asks0[p]
                },
            refs_valid(book@, ledger@),
            old(ledger)@.money.len() + 2 * INIT_RADIUS <= usize::MAX,
            old(ledger)@.canceled.len() + 2 * INIT_RADIUS <= usize::MAX,
        decreases STARTING_PRICE + INIT_RADIUS + 1 - price,
    {
        let ghost before = *ledger;
        let ghost book_before = book@;
        let is_canceled = ledger.new_cancel_flag();
        let money_address = ledger.open_account(INIT_BALANCE);
        let e = QueueEntry { is_canceled, quantity: INIT_QUANTITY, money_address };
        book.push_back(false, price, e);
        proof {
            assert(ledger@.money =~= old(ledger)@.money + Seq::new((price + 1 - STARTING_PRICE - 1) as nat, |k: int| INIT_BALANCE));
            assert(ledger@.canceled =~= old(ledger)@.canceled + Seq::new((price + 1 - STARTING_PRICE - 1) as nat, |k: int| false));
            assert forall|p: int| 0 <= p < book@.asks.len() implies queue_refs_valid(#[trigger] book@.asks[p], ledger@) by {
                assert(queue_refs_valid(book_before.asks[p], before@));
            }
            assert forall|p: int| 0 <= p < book@.bids.len() implies queue_refs_valid(#[trigger] book@.bids[p], ledger@) by {
                assert(queue_refs_valid(book_before.bids[p], before@));
            }
        }
        price = price + 1;
    }
    let mut price: usize = mid - INIT_RADIUS;
    while price <= mid - 1
        invariant
            mid == STARTING_PRICE,
            STARTING_PRICE - INIT_RADIUS <= price <= STARTING_PRICE,
            m0 == old(ledger)@.money.len(),
            c0 == old(ledger)@.canceled.len(),
            asks0 == old(book)@.asks,
            bids0 == old(book)@.bids,
            book_shaped(book@),
            book@.asks == seeded_asks(asks0, m0, c0),
            book@.highest_ask_index == STARTING_PRICE + 1,
            book@.lowest_bid_index == STARTING_PRICE - 1,
            book@.lowest_ask_index == STARTING_PRICE + INIT_RADIUS,
            book@.highest_bid_index == STARTING_PRICE - INIT_RADIUS,
            ledger@.money == old(ledger)@.money + Seq::new((INIT_RADIUS + price - (STARTING_PRICE - INIT_RADIUS)) as nat, |k: int| INIT_BALANCE),
            ledger@.canceled == old(ledger)@.canceled + Seq::new((INIT_RADIUS + price - (STARTING_PRICE - INIT_RADIUS)) as nat, |k: int| false),
            forall|p: int|
                0 <= p < BOOK_SIZE ==> #[trigger] book@.bids[p] == if STARTING_PRICE - INIT_RADIUS <= p < price {
                    bids0[p].push(
                        seed(
                            m0 + INIT_RADIUS + (p - (STARTING_PRICE - INIT_RADIUS)),
                            c0 + INIT_RADIUS + (p - (STARTING_PRICE - INIT_RADIUS)),
                        ),
                    )
                } else {
                    bids0[p]
                },
            refs_valid(book@, ledger@),
            old(ledger)@.money.len() + 2 * INIT_RADIUS <= usize::MAX,
            old(ledger)@.canceled.len() + 2 * INIT_RADIUS <= usize::MAX,
        decreases STARTING_PRICE - price,
    {
        let ghost before = *ledger;
        let ghost book_before = book@;
        let is_canceled = ledger.new_cancel_flag();
        let money_address = ledger.open_account(INIT_BALANCE);
        let e = QueueEntry { is_canceled, quantity: INIT_QUANTITY, money_address };
        book.push_back(true, price, e);
        proof {
            assert(ledger@.money =~= old(ledger)@.money + Seq::new((INIT_RADIUS + price + 1 - (STARTING_PRICE - INIT_RADIUS)) as nat, |k: int| INIT_BALANCE));
            assert(ledger@.canceled =~= old(ledger)@.canceled + Seq::new((INIT_RADIUS + price + 1 - (STARTING_PRICE - INIT_RADIUS)) as nat, |k: int| false));
            assert forall|p: int| 0 <= p < book@.asks.len() implies queue_refs_valid(#[trigger] book@.asks[p], ledger@) by {
                assert(queue_refs_valid(book_before.asks[p], before@));
            }
            assert forall|p: int| 0 <= p < book@.bids.len() implies queue_refs_valid(#[trigger] book@.bids[p], ledger@) by {
                assert(queue_refs_valid(book_before.bids[p], before@));
            }
        }
        price = price + 1;
    }
    proof {
        assert(book@.asks =~= seeded_asks(old(book)@.asks, m0, c0));
        assert(book@.bids =~= seeded_bids(old(book)@.bids, m0, c0));
    }
}

/// What the exchange publishes at the end of a tick: the tick's number, the
/// best bid (`lowest_bid_index`), the best ask (`highest_ask_index`) and the
/// mid price between them, rounded down.
#[derive(Clone, Copy, Debug, PartialEq, Eq, Structural)]
pub struct TickReport {
    pub tick_num: u64,
    pub best_bid: usize,
    pub best_ask: usize,
    pub mid: usize,
}

/// A step's outcome with its report left out.
pub open spec fn without_report(r: Result<Option<TickReport>, MatchError>) -> Result<(), MatchError> {
    match r {
        Ok(_) => Ok(()),
        Err(e) => Err(e),
    }
}

/// The exchange: the book, the balances and cancel flags its orders refer to,
/// and the number of ticks reported so far.
pub struct Exchange {
    pub book: Book,
    pub ledger: Ledger,
    pub tick_num: u64,
}

impl Exchange {
    /// The state the exchange keeps between orders: a book of the right shape
    /// whose handles name ledger entries, with its best bid and best ask inside
    /// the book.
    pub open spec fn wf(&self) -> bool {
        &&& book_shaped(self.book@)
        &&& refs_valid(self.book@, self.ledger@)
        &&& markers_in_book(self.book@)
    }

    /// An exchange whose book is seeded around the starting price (see
    /// [`init_exchange`]) and has reported no tick yet.
    pub fn new() -> (e: Exchange)
        ensures
            e.wf(),
            e.tick_num == 0,
            e.book@.highest_ask_index == STARTING_PRICE + 1,
            e.book@.lowest_bid_index == STARTING_PRICE - 1,
            e.book@.lowest_ask_index == STARTING_PRICE + INIT_RADIUS,
            e.book@.highest_bid_index == STARTING_PRICE - INIT_RADIUS,
            e.book@.asks == seeded_asks(Seq::new(BOOK_SIZE as nat, |p: int| Seq::<QueueEntry>::empty()), 0, 0),
            e.book@.bids == seeded_bids(Seq::new(BOOK_SIZE as nat, |p: int| Seq::<QueueEntry>::empty()), 0, 0),
            e.ledger@.money == Seq::new((2 * INIT_RADIUS) as nat, |k: int| INIT_BALANCE),
            e.ledger@.canceled == Seq::new((2 * INIT_RADIUS) as nat, |k: int| false),
            quotes_hold(e.book@, e.ledger@.canceled),
    {
        let mut book = Book::new(0, 0, 0, 0);
        let mut ledger = Ledger::new();
        proof {
            assert(book@.asks =~= Seq::new(BOOK_SIZE as nat, |p: int| Seq::<QueueEntry>::empty()));
            assert(book@.bids =~= Seq::new(BOOK_SIZE as nat, |p: int| Seq::<QueueEntry>::empty()));
        }
        init_exchange(&mut book, &mut ledger);
        proof {
            assert(ledger@.money =~= Seq::new((2 * INIT_RADIUS) as nat, |k: int| INIT_BALANCE));
            assert(ledger@.canceled =~= Seq::new((2 * INIT_RADIUS) as nat, |k: int| false));
            let b = book@;
            assert forall|p: int| 0 <= p < b.bids.len() && (#[trigger] b.bids[p]).len() > 0 implies
                STARTING_PRICE - INIT_RADIUS <= p <= STARTING_PRICE - 1 by {
            }
            assert forall|p: int| 0 <= p < b.asks.len() && (#[trigger] b.asks[p]).len() > 0 implies
                STARTING_PRICE + 1 <= p <= STARTING_PRICE + INIT_RADIUS by {
            }
        }
        Exchange { book, ledger, tick_num: 0 }
    }

    /// One step of the exchange's loop, taken once every trader has arrived
    /// at the tick barrier. With an order from the queue, the order is matched
    /// ([`handle_ask`] or [`handle_bid`]) and nothing is reported. With the
    /// queue empty, the tick ends: its report is returned and the tick count
    /// goes up by one.
    pub fn handle_orders(&mut self, event: Option<MarketOrder>) -> (r: Result<Option<TickReport>, MatchError>)
        requires
            old(self).wf(),
            event is Some ==> order_refs_valid(event->0, old(self).ledger@),
            event is None ==> old(self).tick_num < u64::MAX,
        ensures
            final(self).ledger@.canceled == old(self).ledger@.canceled,
            book_shaped(final(self).book@),
            refs_valid(final(self).book@, final(self).ledger@),
            r is Ok ==> final(self).wf(),
            r is Ok && quotes_hold(old(self).book@, old(self).ledger@.canceled) ==> quotes_hold(
                final(self).book@,
                final(self).ledger@.canceled,
            ),
            match event {
                Some(o) => {
                    &&& final(self).tick_num == old(self).tick_num
                    &&& (without_report(r), final(self).book@, final(self).ledger@.money) == match o.order_type {
                        OrderType::Ask => ask_effect(old(self).book@, old(self).ledger@, o),
                        OrderType::Bid => bid_effect(old(self).book@, old(self).ledger@, o),
                    }
                    &&& r is Ok ==> r->Ok_0 is None
                },
                None => {
                    &&& final(self).tick_num == old(self).tick_num + 1
                    &&& final(self).book@ == old(self).book@
                    &&& final(self).ledger@ == old(self).ledger@
                    &&& r == Ok::<Option<TickReport>, MatchError>(Some(TickReport {
                        tick_num: old(self).tick_num,
                        best_bid: old(self).book@.lowest_bid_index,
                        best_ask: old(self).book@.highest_ask_index,
                        mid: ((old(self).book@.lowest_bid_index + old(self).book@.highest_ask_index) / 2) as usize,
                    }))
                },
            },
    {
        match event {
            Some(market_order) => {
                proof {
                    if quotes_hold(self.book@, self.ledger@.canceled) {
                        if ask_effect(self.book@, self.ledger@, market_order).0 is Ok {
                            ask_keeps_quotes(self.book@, self.ledger@, market_order);
                        }
                        if bid_effect(self.book@, self.ledger@, market_order).0 is Ok {
                            bid_keeps_quotes(self.book@, self.ledger@, market_order);
                        }
                    }
                }
                let r = if market_order.order_type == OrderType::Ask {
                    handle_ask(market_order, &mut self.book, &mut self.ledger)
                } else {
                    handle_bid(market_order, &mut self.book, &mut self.ledger)
                };
                match r {
                    Ok(()) => Ok(None),
                    Err(e) => Err(e),
                }
            },
            None => {
                let best_bid = self.book.lowest_bid_index();
                let best_ask = self.book.highest_ask_index();
                let mid = (best_bid + best_ask) / 2;
                let report = TickReport { tick_num: self.tick_num, best_bid, best_ask, mid };
                self.tick_num = self.tick_num + 1;
                Ok(Some(report))
            },
        }
    }
}

} // verus!
