use hft_sim::corporation::{set_true_price, true_price_step, STARTING_PRICE};
use hft_sim::exchange::{MarketOrder, OrderType};
use hft_sim::ledger::Ledger;
use hft_sim::market::{clamp_quantity, fundamentalist, noise, noise_order, FUNDAMENTAL_QUANTITY};
use hft_sim::utils::TickBarrier;

#[test]
fn tick_barrier_cycle() {
    let mut b = TickBarrier::new();
    assert_eq!(b.generation(), 0);
    assert_eq!(b.wait_counter(), 0);
    let a1 = b.wait();
    let a2 = b.wait();
    assert_eq!((a1, a2), (0, 0));
    assert_eq!(b.wait_counter(), 2);
    assert!(b.must_keep_waiting(a1));
    b.wake();
    assert_eq!(b.wait_counter(), 0);
    assert_eq!(b.generation(), 1);
    assert!(!b.must_keep_waiting(a1));
    assert!(!b.must_keep_waiting(a2));
    let a3 = b.wait();
    assert_eq!(a3, 1);
    assert!(b.must_keep_waiting(a3));
    assert!(!b.system_end());
    b.shutdown();
    assert!(b.system_end());
    assert!(!b.must_keep_waiting(a3));
}

#[test]
fn true_price_walk() {
    assert_eq!(true_price_step(STARTING_PRICE, true), 999);
    assert_eq!(true_price_step(STARTING_PRICE, false), 1001);
    assert_eq!(true_price_step(0, true), u64::MAX);
    assert_eq!(true_price_step(u64::MAX, false), 0);
    for _ in 0..50 {
        let next = set_true_price(STARTING_PRICE);
        assert!(next == 999 || next == 1001);
    }
    let mut seen_up = false;
    let mut seen_down = false;
    for _ in 0..200 {
        let next = set_true_price(500);
        seen_up |= next == 501;
        seen_down |= next == 499;
    }
    assert!(seen_up && seen_down);
}

#[test]
fn noise_quantities_are_capped() {
    assert_eq!(clamp_quantity(0), 0);
    assert_eq!(clamp_quantity(7), 7);
    assert_eq!(clamp_quantity(99), 99);
    assert_eq!(clamp_quantity(100), 100);
    assert_eq!(clamp_quantity(12345), 100);
    let mut ledger = Ledger::new();
    let flag = ledger.new_cancel_flag();
    let account = ledger.open_account(5);
    assert_eq!(
        noise_order(250, true, flag, account, &ledger),
        MarketOrder { order_type: OrderType::Ask, price: 0, is_canceled: flag, quantity: 100, money_address: account }
    );
    assert_eq!(noise_order(3, false, flag, account, &ledger).order_type, OrderType::Bid);
    for _ in 0..20 {
        let o = noise(42, flag, account, &ledger);
        assert_eq!(o.price, 0);
        assert_eq!(o.quantity, 42);
    }
}

#[test]
fn fundamentalist_trades_only_beyond_threshold() {
    let mut ledger = Ledger::new();
    let flag = ledger.new_cancel_flag();
    let account = ledger.open_account(5);
    assert_eq!(fundamentalist(1000, 1000, 1000, flag, account, &ledger), None);
    assert_eq!(fundamentalist(1050, 1050, 1000, flag, account, &ledger), None);
    assert_eq!(fundamentalist(950, 950, 1000, flag, account, &ledger), None);
    let o = fundamentalist(1051, 1051, 1000, flag, account, &ledger).unwrap();
    assert_eq!(
        o,
        MarketOrder { order_type: OrderType::Ask, price: 1000, is_canceled: flag, quantity: FUNDAMENTAL_QUANTITY, money_address: account }
    );
    let o = fundamentalist(900, 998, 1000, flag, account, &ledger).unwrap();
    assert_eq!(o.order_type, OrderType::Bid);
    assert_eq!(o.price, 1000);
    // mid of 1101 and 1000 rounds down to 1050: within the threshold.
    assert_eq!(fundamentalist(1101, 1000, 1000, flag, account, &ledger), None);
    // A true value above i64::MAX reads as negative: u64::MAX reads as -1.
    assert_eq!(fundamentalist(0, 0, u64::MAX, flag, account, &ledger), None);
    let o = fundamentalist(100, 100, u64::MAX, flag, account, &ledger).unwrap();
    assert_eq!(o.order_type, OrderType::Ask);
    assert_eq!(o.price, u64::MAX);
}

#[test]
fn ledger_handles() {
    let mut ledger = Ledger::new();
    assert_eq!(ledger.num_accounts(), 0);
    let a = ledger.open_account(10);
    let b = ledger.open_account(20);
    assert_eq!((a, b), (0, 1));
    assert_eq!(ledger.balance(b), 20);
    let f = ledger.new_cancel_flag();
    assert!(!ledger.is_canceled(f));
    ledger.cancel(f);
    assert!(ledger.is_canceled(f));
    assert_eq!(ledger.num_cancel_flags(), 1);
}

#[test]
fn true_price_steps_undo_each_other() {
    for p in [0u64, 1, 1000, u64::MAX - 1, u64::MAX] {
        assert_eq!(true_price_step(true_price_step(p, true), false), p);
        assert_eq!(true_price_step(true_price_step(p, false), true), p);
        assert_ne!(true_price_step(p, true), p);
    }
}

#[test]
fn tick_barrier_counts_any_interleaving() {
    let mut b = TickBarrier::new();
    let mut wakes = 0usize;
    let mut since = 0usize;
    let pattern = [0u8, 0, 1, 0, 2, 0, 0, 0, 1, 1, 0];
    for (i, &e) in pattern.iter().enumerate() {
        match e {
            0 => {
                b.wait();
                since += 1;
            }
            1 => {
                b.wake();
                wakes += 1;
                since = 0;
            }
            _ => b.shutdown(),
        }
        assert_eq!(b.generation(), wakes);
        assert_eq!(b.wait_counter(), since);
        assert_eq!(b.system_end(), i >= 4);
    }
}
