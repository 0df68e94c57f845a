use vstd::prelude::*;

verus! {

/// The balances and cancel flags that traders share with the exchange.
///
/// A trader's balance and an order's cancel flag are handles that several
/// parties hold at once (the trader, its resting orders, the exchange). Here
/// each is an entry of a table, and a handle is its index in that table:
/// `money_address` indexes `money`, `is_canceled` indexes `canceled`.
pub struct Ledger {
    money: Vec<u64>,
    canceled: Vec<bool>,
}

/// The abstract state of a [`Ledger`].
pub struct LedgerView {
    pub money: Seq<u64>,
    pub canceled: Seq<bool>,
}

impl View for Ledger {
    type V = LedgerView;

    closed spec fn view(&self) -> LedgerView {
        LedgerView { money: self.money@, canceled: self.canceled@ }
    }
}

impl Ledger {
    /// A ledger with no balances and no flags.
    pub fn new() -> (l: Self)
        ensures
            l@.money == Seq::<u64>::empty(),
            l@.canceled == Seq::<bool>::empty(),
    {
        Ledger { money: Vec::new(), canceled: Vec::new() }
    }

    /// Opens a balance holding `initial`; its handle is returned.
    pub fn open_account(&mut self, initial: u64) -> (id: usize)
        requires
            old(self)@.money.len() < usize::MAX,
        ensures
            id == old(self)@.money.len(),
            final(self)@.money == old(self)@.money.push(initial),
            final(self)@.canceled == old(self)@.canceled,
    {
        let id = self.money.len();
        self.money.push(initial);
        id
    }

    /// Makes a new cancel flag, lowered; its handle is returned.
    pub fn new_cancel_flag(&mut self) -> (id: usize)
        requires
            old(self)@.canceled.len() < usize::MAX,
        ensures
            id == old(self)@.canceled.len(),
            final(self)@.canceled == old(self)@.canceled.push(false),
            final(self)@.money == old(self)@.money,
    {
        let id = self.canceled.len();
        self.canceled.push(false);
        id
    }

    /// Raises the cancel flag `id`: every order that carries it is skipped and
    /// dropped when the matching engine reaches it.
    pub fn cancel(&mut self, id: usize)
        requires
            id < old(self)@.canceled.len(),
        ensures
            final(self)@.canceled == old(self)@.canceled.update(id as int, true),
            final(self)@.money == old(self)@.money,
    {
        self.canceled.set(id, true);
    }

    /// The balance behind handle `id`.
    pub fn balance(&self, id: usize) -> (m: u64)
        requires
            id < self@.money.len(),
        ensures
            m == self@.money[id as int],
    {
        self.money[id]
    }

    /// Whether the cancel flag behind handle `id` is raised.
    pub fn is_canceled(&self, id: usize) -> (c: bool)
        requires
            id < self@.canceled.len(),
        ensures
            c == self@.canceled[id as int],
    {
        self.canceled[id]
    }

    /// The number of balances.
    pub fn num_accounts(&self) -> (n: usize)
        ensures
            n == self@.money.len(),
    {
        self.money.len()
    }

    /// The number of cancel flags.
    pub fn num_cancel_flags(&self) -> (n: usize)
        ensures
            n == self@.canceled.len(),
    {
        self.canceled.len()
    }

    /// Moves `amount` from balance `payer` to balance `payee`, wrapping as the
    /// atomic adds and subtracts of shared balances do.
    pub(crate) fn transfer(&mut self, payer: usize, payee: usize, amount: u64)
        requires
            payer < old(self)@.money.len(),
            payee < old(self)@.money.len(),
            amount <= old(self)@.money[payer as int],
        ensures
            final(self)@.money == transfer_money(old(self)@.money, payer as int, payee as int, amount),
            final(self)@.canceled == old(self)@.canceled,
    {
        let a = self.money[payee].wrapping_add(amount);
        self.money.set(payee, a);
        let b = self.money[payer].wrapping_sub(amount);
        self.money.set(payer, b);
        proof {
            if payer == payee {
                assert(b == old(self)@.money[payer as int]);
                assert(self.money@ =~= old(self)@.money);
            } else {
                assert(self.money@ =~= old(self)@.money
                    .update(payer as int, (old(self)@.money[payer as int] - amount) as u64)
                    .update(payee as int, vstd::wrapping::u64_specs::wrapping_add(old(self)@.money[payee as int], amount)));
            }
        }
    }
}

/// The balances after `amount` moves from `payer` to `payee`: the payer loses
/// it, the payee gains it (modulo 2^64, as an atomic add does). When payer and
/// payee are one balance, nothing changes.
pub open spec fn transfer_money(money: Seq<u64>, payer: int, payee: int, amount: u64) -> Seq<u64> {
    if payer == payee {
        money
    } else {
        money.update(payer, (money[payer] - amount) as u64).update(
            payee,
            vstd::wrapping::u64_specs::wrapping_add(money[payee], amount),
        )
    }
}

} // verus!
