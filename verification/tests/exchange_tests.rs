use hft_sim::corporation::STARTING_PRICE;
use hft_sim::exchange::{
    ask, bid, handle_ask, handle_bid, init_exchange, limit_ask, limit_bid, Book, Exchange,
    MarketOrder, OrderType, QueueEntry, TickReport, BOOK_SIZE, INIT_BALANCE, INIT_QUANTITY,
    INIT_RADIUS,
};
use hft_sim::ledger::Ledger;
use hft_sim::market::INITIAL_MONEY;
use hft_sim::matching::MatchError;

fn total(ledger: &Ledger) -> u128 {
    (0..ledger.num_accounts()).map(|i| ledger.balance(i) as u128).sum()
}

fn trader(ledger: &mut Ledger, money: u64) -> (usize, usize) {
    let flag = ledger.new_cancel_flag();
    let account = ledger.open_account(money);
    (flag, account)
}

#[test]
fn book_new_is_empty_with_given_markers() {
    let book = Book::new(1, 2, 3, 4);
    assert_eq!(book.highest_ask_index(), 1);
    assert_eq!(book.lowest_ask_index(), 2);
    assert_eq!(book.highest_bid_index(), 3);
    assert_eq!(book.lowest_bid_index(), 4);
    for p in [0, 1, 1000, BOOK_SIZE - 1] {
        assert_eq!(book.queue_len(true, p), 0);
        assert_eq!(book.queue_len(false, p), 0);
    }
}

#[test]
fn init_exchange_seeds_both_sides() {
    let mut book = Book::new(0, 0, 0, 0);
    let mut ledger = Ledger::new();
    init_exchange(&mut book, &mut ledger);
    let mid = STARTING_PRICE as usize;
    assert_eq!(book.highest_ask_index(), mid + 1);
    assert_eq!(book.lowest_bid_index(), mid - 1);
    assert_eq!(book.lowest_ask_index(), mid + INIT_RADIUS);
    assert_eq!(book.highest_bid_index(), mid - INIT_RADIUS);
    assert_eq!(ledger.num_accounts(), 2 * INIT_RADIUS);
    assert_eq!(ledger.num_cancel_flags(), 2 * INIT_RADIUS);
    for p in (mid + 1)..=(mid + INIT_RADIUS) {
        assert_eq!(book.queue_len(false, p), 1);
        assert_eq!(book.queue_len(true, p), 0);
        let e = book.queue_entry(false, p, 0);
        assert_eq!(e.quantity, INIT_QUANTITY);
        assert_eq!(e.money_address, p - mid - 1);
        assert_eq!(ledger.balance(e.money_address), INIT_BALANCE);
        assert!(!ledger.is_canceled(e.is_canceled));
    }
    for p in (mid - INIT_RADIUS)..=(mid - 1) {
        assert_eq!(book.queue_len(true, p), 1);
        assert_eq!(book.queue_len(false, p), 0);
        let e = book.queue_entry(true, p, 0);
        assert_eq!(e.quantity, INIT_QUANTITY);
        assert_eq!(e.money_address, INIT_RADIUS + p - (mid - INIT_RADIUS));
    }
    assert_eq!(book.queue_len(true, mid), 0);
    assert_eq!(book.queue_len(false, mid), 0);
    assert_eq!(book.queue_len(false, mid + INIT_RADIUS + 1), 0);
}

#[test]
fn order_constructors() {
    let mut ledger = Ledger::new();
    let (flag, account) = trader(&mut ledger, INITIAL_MONEY);
    let o = limit_ask(17, flag, 5, account, &ledger);
    assert_eq!(
        o,
        MarketOrder { order_type: OrderType::Ask, price: 17, is_canceled: flag, quantity: 5, money_address: account }
    );
    let o = limit_bid(18, flag, 6, account, &ledger);
    assert_eq!(o.order_type, OrderType::Bid);
    assert_eq!(o.price, 18);
    assert_eq!(ask(flag, 7, account, &ledger), limit_ask(0, flag, 7, account, &ledger));
    assert_eq!(bid(flag, 8, account, &ledger), limit_bid(0, flag, 8, account, &ledger));
}

fn live_levels(book: &Book, ledger: &Ledger, bids: bool) -> Vec<usize> {
    (0..BOOK_SIZE)
        .filter(|&p| {
            (0..book.queue_len(bids, p)).any(|k| !ledger.is_canceled(book.queue_entry(bids, p, k).is_canceled))
        })
        .collect()
}

fn assert_quotes_hold(book: &Book, ledger: &Ledger) {
    let bids = live_levels(book, ledger, true);
    let asks = live_levels(book, ledger, false);
    if let (Some(&top_bid), Some(&low_ask)) = (bids.last(), asks.first()) {
        assert!(top_bid < low_ask, "crossed book: bid at {} and ask at {}", top_bid, low_ask);
    }
    if let Some(&top_bid) = bids.last() {
        assert!(top_bid <= book.lowest_bid_index());
    }
    if let Some(&low_ask) = asks.first() {
        assert!(book.highest_ask_index() <= low_ask);
    }
}

fn seeded_bidder(ex: &Exchange, p: usize) -> usize {
    ex.book.queue_entry(true, p, 0).money_address
}

fn seeded_seller(ex: &Exchange, p: usize) -> usize {
    ex.book.queue_entry(false, p, 0).money_address
}

#[test]
fn market_ask_sells_into_best_bids() {
    let mut ex = Exchange::new();
    let (flag, m) = trader(&mut ex.ledger, 0);
    let (b999, b998) = (seeded_bidder(&ex, 999), seeded_bidder(&ex, 998));
    let before = total(&ex.ledger);
    let o = ask(flag, 250, m, &ex.ledger);
    assert_eq!(handle_ask(o, &mut ex.book, &mut ex.ledger), Ok(()));
    assert_eq!(ex.ledger.balance(m), 249_700);
    assert_eq!(ex.ledger.balance(b999), INIT_BALANCE - 199_800);
    assert_eq!(ex.ledger.balance(b998), INIT_BALANCE - 49_900);
    assert_eq!(ex.book.queue_len(true, 999), 0);
    assert_eq!(ex.book.queue_entry(true, 998, 0).quantity, 150);
    for p in 0..BOOK_SIZE {
        let expected = if (1001..=1050).contains(&p) { 1 } else { 0 };
        assert_eq!(ex.book.queue_len(false, p), expected);
    }
    assert_eq!(ex.book.highest_ask_index(), 1001);
    assert_eq!(ex.book.lowest_bid_index(), 998);
    assert_eq!(total(&ex.ledger), before);
    assert_quotes_hold(&ex.book, &ex.ledger);
}

#[test]
fn crossing_limit_ask_fills_at_best_bids() {
    let mut ex = Exchange::new();
    let (flag, m) = trader(&mut ex.ledger, 0);
    let (b999, b998) = (seeded_bidder(&ex, 999), seeded_bidder(&ex, 998));
    let o = limit_ask(998, flag, 300, m, &ex.ledger);
    assert_eq!(handle_ask(o, &mut ex.book, &mut ex.ledger), Ok(()));
    assert_eq!(ex.ledger.balance(m), 299_600);
    assert_eq!(ex.book.queue_len(true, 999), 0);
    assert_eq!(ex.ledger.balance(b999), 999_800_200);
    assert_eq!(ex.book.queue_len(true, 998), 1);
    assert_eq!(ex.book.queue_entry(true, 998, 0).quantity, 100);
    assert_eq!(ex.ledger.balance(b998), 999_900_200);
    assert_eq!(ex.book.queue_len(false, 998), 0);
    assert_eq!(ex.book.lowest_bid_index(), 998);
    assert_eq!(ex.book.highest_ask_index(), 1001);
    assert_quotes_hold(&ex.book, &ex.ledger);
}

#[test]
fn crossing_limit_bid_fills_at_best_asks() {
    let mut ex = Exchange::new();
    let (flag, m) = trader(&mut ex.ledger, 1_000_000);
    let (s1001, s1002) = (seeded_seller(&ex, 1001), seeded_seller(&ex, 1002));
    let o = limit_bid(1002, flag, 300, m, &ex.ledger);
    assert_eq!(handle_bid(o, &mut ex.book, &mut ex.ledger), Ok(()));
    assert_eq!(ex.ledger.balance(m), 699_600);
    assert_eq!(ex.book.queue_len(false, 1001), 0);
    assert_eq!(ex.ledger.balance(s1001), 1_000_200_200);
    assert_eq!(ex.book.queue_len(false, 1002), 1);
    assert_eq!(ex.book.queue_entry(false, 1002, 0).quantity, 100);
    assert_eq!(ex.ledger.balance(s1002), 1_000_100_200);
    assert_eq!(ex.book.queue_len(true, 1002), 0);
    assert_eq!(ex.book.highest_ask_index(), 1002);
    assert_eq!(ex.book.lowest_bid_index(), 999);
    assert_quotes_hold(&ex.book, &ex.ledger);
}

#[test]
fn market_bid_buys_from_best_asks() {
    let mut ex = Exchange::new();
    let (flag, m) = trader(&mut ex.ledger, 1_000_000);
    let before = total(&ex.ledger);
    let o = bid(flag, 250, m, &ex.ledger);
    assert_eq!(handle_bid(o, &mut ex.book, &mut ex.ledger), Ok(()));
    assert_eq!(ex.ledger.balance(m), 749_700);
    assert_eq!(ex.book.queue_len(false, 1001), 0);
    assert_eq!(ex.book.queue_entry(false, 1002, 0).quantity, 150);
    for p in 0..BOOK_SIZE {
        let expected = if (950..=999).contains(&p) { 1 } else { 0 };
        assert_eq!(ex.book.queue_len(true, p), expected);
    }
    assert_eq!(ex.book.lowest_bid_index(), 999);
    assert_eq!(ex.book.highest_ask_index(), 1002);
    assert_eq!(total(&ex.ledger), before);
    assert_quotes_hold(&ex.book, &ex.ledger);
}

#[test]
fn partly_filled_bid_keeps_its_rest_at_the_front() {
    let mut ex = Exchange::new();
    let (flag, m) = trader(&mut ex.ledger, 0);
    let b999 = seeded_bidder(&ex, 999);
    let o = limit_ask(950, flag, 10, m, &ex.ledger);
    assert_eq!(handle_ask(o, &mut ex.book, &mut ex.ledger), Ok(()));
    assert_eq!(ex.ledger.balance(m), 9_990);
    assert_eq!(ex.ledger.balance(b999), INIT_BALANCE - 9_990);
    assert_eq!(ex.book.queue_len(true, 999), 1);
    assert_eq!(ex.book.queue_entry(true, 999, 0).quantity, INIT_QUANTITY - 10);
    assert_eq!(ex.book.queue_entry(true, 999, 0).money_address, b999);
    assert_eq!(ex.book.queue_len(false, 950), 0);
    assert_eq!(ex.book.lowest_bid_index(), 999);
    assert_quotes_hold(&ex.book, &ex.ledger);
}

#[test]
fn non_crossing_orders_rest_at_their_price() {
    let mut ex = Exchange::new();
    let (flag, m) = trader(&mut ex.ledger, 1_000_000);
    let o = limit_ask(1005, flag, 10, m, &ex.ledger);
    assert_eq!(handle_ask(o, &mut ex.book, &mut ex.ledger), Ok(()));
    assert_eq!(ex.book.queue_len(false, 1005), 2);
    assert_eq!(
        ex.book.queue_entry(false, 1005, 1),
        QueueEntry { is_canceled: flag, quantity: 10, money_address: m }
    );
    assert_eq!(ex.book.lowest_bid_index(), 999);
    assert_eq!(ex.book.highest_ask_index(), 1001);
    let o = limit_bid(995, flag, 7, m, &ex.ledger);
    assert_eq!(handle_bid(o, &mut ex.book, &mut ex.ledger), Ok(()));
    assert_eq!(ex.book.queue_len(true, 995), 2);
    assert_eq!(ex.book.queue_entry(true, 995, 1).quantity, 7);
    assert_eq!(ex.book.lowest_bid_index(), 999);
    assert_eq!(ex.book.highest_ask_index(), 1001);
    let o = limit_ask(1000, flag, 3, m, &ex.ledger);
    assert_eq!(handle_ask(o, &mut ex.book, &mut ex.ledger), Ok(()));
    assert_eq!(ex.book.queue_len(false, 1000), 1);
    assert_eq!(ex.book.highest_ask_index(), 1000);
    assert_eq!(ex.book.lowest_bid_index(), 999);
    assert_eq!(ex.ledger.balance(m), 1_000_000);
    assert_quotes_hold(&ex.book, &ex.ledger);
}

#[test]
fn zero_quantity_orders_trade_nothing() {
    let mut ex = Exchange::new();
    let (flag, m) = trader(&mut ex.ledger, 0);
    // Walked past its price, a zero-quantity ask rests with quantity 0.
    let o = limit_ask(1005, flag, 0, m, &ex.ledger);
    assert_eq!(handle_ask(o, &mut ex.book, &mut ex.ledger), Ok(()));
    assert_eq!(ex.book.queue_len(false, 1005), 2);
    assert_eq!(ex.book.queue_entry(false, 1005, 1), QueueEntry { is_canceled: flag, quantity: 0, money_address: m });
    // Crossing, it is filled at once by the best bid and rests nothing.
    let o = limit_ask(990, flag, 0, m, &ex.ledger);
    assert_eq!(handle_ask(o, &mut ex.book, &mut ex.ledger), Ok(()));
    assert_eq!(ex.book.queue_entry(true, 999, 0).quantity, INIT_QUANTITY);
    assert_eq!(ex.book.queue_len(false, 990), 0);
    assert_eq!(ex.ledger.balance(m), 0);
    assert_eq!(ex.book.lowest_bid_index(), 999);
    assert_eq!(ex.book.highest_ask_index(), 1001);
    // A resting order of quantity 0 is dropped when a bid reaches it.
    let (bflag, buyer) = trader(&mut ex.ledger, 1_000_000);
    let o = limit_bid(1005, bflag, 1, buyer, &ex.ledger);
    assert_eq!(handle_bid(o, &mut ex.book, &mut ex.ledger), Ok(()));
    assert_eq!(ex.ledger.balance(buyer), 1_000_000 - 1001);
    assert_quotes_hold(&ex.book, &ex.ledger);
}

#[test]
fn unaffordable_bid_changes_nothing() {
    let mut ex = Exchange::new();
    let (flag, account) = trader(&mut ex.ledger, 100);
    let o = limit_bid(1050, flag, 10, account, &ex.ledger);
    assert_eq!(handle_bid(o, &mut ex.book, &mut ex.ledger), Ok(()));
    assert_eq!(ex.ledger.balance(account), 100);
    assert_eq!(ex.book.queue_len(false, 1001), 1);
    assert_eq!(ex.book.queue_entry(false, 1001, 0).quantity, INIT_QUANTITY);
    assert_eq!(ex.book.queue_len(true, 1050), 0);
    assert_eq!(ex.book.highest_ask_index(), 1001);
    assert_eq!(ex.book.lowest_bid_index(), 999);
}

#[test]
fn unaffordable_resting_bid_stops_an_ask() {
    let mut book = Book::new(5000, 5000, 100, 100);
    let mut ledger = Ledger::new();
    let (bf, poor) = trader(&mut ledger, 10);
    let (sf, seller) = trader(&mut ledger, 0);
    let b = limit_bid(100, bf, 3, poor, &ledger);
    assert_eq!(handle_bid(b, &mut book, &mut ledger), Ok(()));
    assert_eq!(book.queue_len(true, 100), 1);
    let a = limit_ask(100, sf, 3, seller, &ledger);
    assert_eq!(handle_ask(a, &mut book, &mut ledger), Ok(()));
    assert_eq!(ledger.balance(poor), 10);
    assert_eq!(ledger.balance(seller), 0);
    assert_eq!(book.queue_len(true, 100), 1);
    assert_eq!(book.queue_len(false, 100), 0);
}

#[test]
fn canceled_resting_bid_is_dropped_without_trading() {
    let mut book = Book::new(5000, 5000, 100, 100);
    let mut ledger = Ledger::new();
    let (bf, buyer) = trader(&mut ledger, 1000);
    let (sf, seller) = trader(&mut ledger, 0);
    let b = limit_bid(100, bf, 3, buyer, &ledger);
    assert_eq!(handle_bid(b, &mut book, &mut ledger), Ok(()));
    ledger.cancel(bf);
    assert!(ledger.is_canceled(bf));
    let a = limit_ask(100, sf, 3, seller, &ledger);
    assert_eq!(handle_ask(a, &mut book, &mut ledger), Ok(()));
    assert_eq!(ledger.balance(buyer), 1000);
    assert_eq!(ledger.balance(seller), 0);
    assert_eq!(book.queue_len(true, 100), 0);
    assert_eq!(book.queue_len(false, 100), 1);
    assert_eq!(book.highest_ask_index(), 100);
}

#[test]
fn ask_filled_at_level_sets_best_bid() {
    let mut book = Book::new(5000, 5000, 100, 100);
    let mut ledger = Ledger::new();
    let (bf, buyer) = trader(&mut ledger, 10_000);
    let (sf, seller) = trader(&mut ledger, 0);
    let b = limit_bid(90, bf, 5, buyer, &ledger);
    assert_eq!(handle_bid(b, &mut book, &mut ledger), Ok(()));
    let a = limit_ask(80, sf, 5, seller, &ledger);
    assert_eq!(handle_ask(a, &mut book, &mut ledger), Ok(()));
    assert_eq!(ledger.balance(seller), 450);
    assert_eq!(ledger.balance(buyer), 10_000 - 450);
    assert_eq!(book.lowest_bid_index(), 90);
    assert_eq!(book.queue_len(true, 90), 0);
    assert_eq!(book.queue_len(false, 80), 0);
}

#[test]
fn oldest_bid_at_a_level_trades_first() {
    let mut book = Book::new(5000, 5000, 100, 100);
    let mut ledger = Ledger::new();
    let (fa, a) = trader(&mut ledger, 10_000);
    let (fb, b) = trader(&mut ledger, 10_000);
    let (fs, s) = trader(&mut ledger, 0);
    assert_eq!(handle_bid(limit_bid(100, fa, 2, a, &ledger), &mut book, &mut ledger), Ok(()));
    assert_eq!(handle_bid(limit_bid(100, fb, 5, b, &ledger), &mut book, &mut ledger), Ok(()));
    assert_eq!(book.queue_entry(true, 100, 0).money_address, a);
    assert_eq!(book.queue_entry(true, 100, 1).money_address, b);
    assert_eq!(handle_ask(limit_ask(100, fs, 3, s, &ledger), &mut book, &mut ledger), Ok(()));
    assert_eq!(ledger.balance(a), 10_000 - 200);
    assert_eq!(ledger.balance(b), 10_000 - 100);
    assert_eq!(ledger.balance(s), 300);
    assert_eq!(book.queue_len(true, 100), 1);
    assert_eq!(book.queue_entry(true, 100, 0), QueueEntry { is_canceled: fb, quantity: 4, money_address: b });
    assert_eq!(book.queue_len(false, 100), 0);
}

#[test]
fn ask_priced_beyond_book_is_out_of_book() {
    let mut ex = Exchange::new();
    let (flag, account) = trader(&mut ex.ledger, INITIAL_MONEY);
    let o = limit_ask(40_000, flag, 1, account, &ex.ledger);
    assert_eq!(handle_ask(o, &mut ex.book, &mut ex.ledger), Err(MatchError::IndexOutOfBook));
    assert_eq!(ex.book.lowest_bid_index(), 999);
}

#[test]
fn bid_walking_off_the_book_is_out_of_book() {
    let mut book = Book::new(BOOK_SIZE - 1, 0, 0, 0);
    let mut ledger = Ledger::new();
    let (flag, account) = trader(&mut ledger, 0);
    let o = limit_bid(50_000, flag, 1, account, &ledger);
    assert_eq!(handle_bid(o, &mut book, &mut ledger), Err(MatchError::IndexOutOfBook));
}

#[test]
fn market_ask_on_empty_book_underflows() {
    let mut book = Book::new(0, 0, 0, 0);
    let mut ledger = Ledger::new();
    let (flag, account) = trader(&mut ledger, 0);
    let o = ask(flag, 1, account, &ledger);
    assert_eq!(handle_ask(o, &mut book, &mut ledger), Err(MatchError::IndexUnderflow));
}

#[test]
fn exchange_new_and_tick_reports() {
    let mut ex = Exchange::new();
    assert_eq!(ex.tick_num, 0);
    let r = ex.handle_orders(None);
    assert_eq!(r, Ok(Some(TickReport { tick_num: 0, best_bid: 999, best_ask: 1001, mid: 1000 })));
    assert_eq!(ex.tick_num, 1);
    let r = ex.handle_orders(None);
    assert_eq!(r, Ok(Some(TickReport { tick_num: 1, best_bid: 999, best_ask: 1001, mid: 1000 })));
    assert_eq!(ex.tick_num, 2);
}

#[test]
fn exchange_step_dispatches_orders() {
    let mut ex = Exchange::new();
    let (flag, account) = trader(&mut ex.ledger, INITIAL_MONEY);
    let o = limit_bid(1050, flag, 10, account, &ex.ledger);
    assert_eq!(ex.handle_orders(Some(o)), Ok(None));
    assert_eq!(ex.tick_num, 0);
    assert_eq!(ex.ledger.balance(account), INITIAL_MONEY - 10_010);
    let r = ex.handle_orders(None);
    assert_eq!(r, Ok(Some(TickReport { tick_num: 0, best_bid: 999, best_ask: 1001, mid: 1000 })));
    let o = limit_ask(40_000, flag, 1, account, &ex.ledger);
    assert_eq!(ex.handle_orders(Some(o)), Err(MatchError::IndexOutOfBook));
}

#[test]
fn money_is_conserved_over_many_orders() {
    let mut ex = Exchange::new();
    let mut traders = Vec::new();
    for _ in 0..6 {
        traders.push(trader(&mut ex.ledger, INITIAL_MONEY));
    }
    let before = total(&ex.ledger);
    let prices = [0u64, 960, 1040, 0, 1001, 999, 990, 1010, 0, 0];
    for (i, price) in prices.iter().enumerate() {
        let (flag, account) = traders[i % traders.len()];
        let quantity = (i as u32 % 4) * 30 + 1;
        let o = if i % 2 == 0 {
            limit_ask(*price, flag, quantity, account, &ex.ledger)
        } else {
            limit_bid(*price, flag, quantity, account, &ex.ledger)
        };
        assert_eq!(ex.handle_orders(Some(o)), Ok(None));
        assert_eq!(total(&ex.ledger), before);
        assert_quotes_hold(&ex.book, &ex.ledger);
    }
}

