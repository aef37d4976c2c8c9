use vstd::prelude::*;

use crate::account::{Account, AccountTable};
use crate::event::Event;
use crate::history::{TxKind, TxLog, TxRecord};
use crate::laws::lemma_step_keeps_well_formed;

verus! {

/// The state of a ledger: accounts by client and stored transactions by id.
pub struct LedgerModel {
    pub accounts: Map<u16, Account>,
    pub txs: Map<u32, TxRecord>,
}

/// A balance that can be held in an `i64`.
pub open spec fn fits(x: int) -> bool {
    i64::MIN <= x <= i64::MAX
}

/// The ledger before any event: no accounts, no history.
pub open spec fn empty_model() -> LedgerModel {
    LedgerModel { accounts: Map::empty(), txs: Map::empty() }
}

/// Every account sits under its own client, and its total is its available
/// funds plus its held funds.
pub open spec fn well_formed(m: LedgerModel) -> bool {
    forall|c: u16| #[trigger]
        m.accounts.contains_key(c) ==> m.accounts[c].client == c && m.accounts[c].balanced()
}

/// The client has an account and that account is frozen.
pub open spec fn is_locked(m: LedgerModel, client: u16) -> bool {
    m.accounts.contains_key(client) && m.accounts[client].locked
}

/// A deposit opens the account or adds to its available funds and total;
/// the deposit is stored, undisputed.
pub open spec fn deposit_step(m: LedgerModel, client: u16, tx: u32, amount: i64) -> LedgerModel {
    let record = TxRecord { kind: TxKind::Deposit, client, amount, disputed: false };
    if !m.accounts.contains_key(client) {
        let opened = Account { client, available: amount, held: 0, total: amount, locked: false };
        LedgerModel { accounts: m.accounts.insert(client, opened), txs: m.txs.insert(tx, record) }
    } else {
        let a = m.accounts[client];
        if fits(a.available + amount) && fits(a.total + amount) {
            let next = Account {
                client,
                available: (a.available + amount) as i64,
                held: a.held,
                total: (a.total + amount) as i64,
                locked: a.locked,
            };
            LedgerModel { accounts: m.accounts.insert(client, next), txs: m.txs.insert(tx, record) }
        } else {
            m
        }
    }
}

/// A withdrawal takes the amount from the available funds and the total when
/// the account exists and has enough available; it is stored, undisputed,
/// whether or not it was granted.
pub open spec fn withdrawal_step(m: LedgerModel, client: u16, tx: u32, amount: i64) -> LedgerModel {
    let record = TxRecord { kind: TxKind::Withdrawal, client, amount, disputed: false };
    if !m.accounts.contains_key(client) || m.accounts[client].available < amount {
        LedgerModel { accounts: m.accounts, txs: m.txs.insert(tx, record) }
    } else {
        let a = m.accounts[client];
        if fits(a.available - amount) && fits(a.total - amount) {
            let next = Account {
                client,
                available: (a.available - amount) as i64,
                held: a.held,
                total: (a.total - amount) as i64,
                locked: a.locked,
            };
            LedgerModel { accounts: m.accounts.insert(client, next), txs: m.txs.insert(tx, record) }
        } else {
            m
        }
    }
}

/// A dispute marks the stored transaction disputed; for a deposit it also
/// moves the amount from available to held.
pub open spec fn dispute_step(m: LedgerModel, client: u16, tx: u32) -> LedgerModel {
    if !m.accounts.contains_key(client) || !m.txs.contains_key(tx) {
        m
    } else {
        let a = m.accounts[client];
        let r = m.txs[tx];
        let marked = TxRecord { kind: r.kind, client: r.client, amount: r.amount, disputed: true };
        match r.kind {
            TxKind::Deposit => {
                if fits(a.available - r.amount) && fits(a.held + r.amount) {
                    let next = Account {
                        client,
                        available: (a.available - r.amount) as i64,
                        held: (a.held + r.amount) as i64,
                        total: a.total,
                        locked: a.locked,
                    };
                    LedgerModel {
                        accounts: m.accounts.insert(client, next),
                        txs: m.txs.insert(tx, marked),
                    }
                } else {
                    m
                }
            },
            TxKind::Withdrawal => LedgerModel { accounts: m.accounts, txs: m.txs.insert(tx, marked) },
        }
    }
}

/// A resolve of a disputed transaction clears the mark and moves the amount
/// from held back to available.
pub open spec fn resolve_step(m: LedgerModel, client: u16, tx: u32) -> LedgerModel {
    if !m.accounts.contains_key(client) || !m.txs.contains_key(tx) || !m.txs[tx].disputed {
        m
    } else {
        let a = m.accounts[client];
        let r = m.txs[tx];
        if fits(a.available + r.amount) && fits(a.held - r.amount) {
            let next = Account {
                client,
                available: (a.available + r.amount) as i64,
                held: (a.held - r.amount) as i64,
                total: a.total,
                locked: a.locked,
            };
            let cleared = TxRecord { kind: r.kind, client: r.client, amount: r.amount, disputed: false };
            LedgerModel { accounts: m.accounts.insert(client, next), txs: m.txs.insert(tx, cleared) }
        } else {
            m
        }
    }
}

/// A chargeback of a disputed transaction removes the amount from held and
/// from the total, and locks the account.
pub open spec fn chargeback_step(m: LedgerModel, client: u16, tx: u32) -> LedgerModel {
    if !m.accounts.contains_key(client) || !m.txs.contains_key(tx) || !m.txs[tx].disputed {
        m
    } else {
        let a = m.accounts[client];
        let r = m.txs[tx];
        if fits(a.held - r.amount) && fits(a.total - r.amount) {
            let next = Account {
                client,
                available: a.available,
                held: (a.held - r.amount) as i64,
                total: (a.total - r.amount) as i64,
                locked: true,
            };
            LedgerModel { accounts: m.accounts.insert(client, next), txs: m.txs }
        } else {
            m
        }
    }
}

/// The effect of one event: none when the client's account is locked,
/// otherwise the rule of the event's kind. An event whose effect would carry a
/// balance outside the `i64` range is refused like any other denied event.
pub open spec fn step(m: LedgerModel, e: Event) -> LedgerModel {
    match e {
        Event::Deposit { client, tx, amount } => {
            if is_locked(m, client) { m } else { deposit_step(m, client, tx, amount) }
        },
        Event::Withdrawal { client, tx, amount } => {
            if is_locked(m, client) { m } else { withdrawal_step(m, client, tx, amount) }
        },
        Event::Dispute { client, tx } => {
            if is_locked(m, client) { m } else { dispute_step(m, client, tx) }
        },
        Event::Resolve { client, tx } => {
            if is_locked(m, client) { m } else { resolve_step(m, client, tx) }
        },
        Event::Chargeback { client, tx } => {
            if is_locked(m, client) { m } else { chargeback_step(m, client, tx) }
        },
        Event::Unknown => m,
    }
}

/// The events applied one after another, in order.
pub open spec fn run(m: LedgerModel, events: Seq<Event>) -> LedgerModel
    decreases events.len(),
{
    if events.len() == 0 {
        m
    } else {
        step(run(m, events.drop_last()), events.last())
    }
}

/// The ledger engine: account balances and the history of deposits and
/// withdrawals that later disputes refer to.
pub struct Ledger {
    accounts: AccountTable,
    txs: TxLog,
}

impl View for Ledger {
    type V = LedgerModel;

    closed spec fn view(&self) -> LedgerModel {
        LedgerModel { accounts: self.accounts@, txs: self.txs@ }
    }
}

impl Ledger {
    /// A ledger with no accounts and no history.
    pub fn new() -> (r: Ledger)
        ensures
            r@ == empty_model(),
            well_formed(r@),
    {
        let r = Ledger { accounts: AccountTable::new(), txs: TxLog::new() };
        r
    }

    /// A fresh ledger with the events applied in order.
    pub fn process(events: &Vec<Event>) -> (r: Ledger)
        ensures
            r@ == run(empty_model(), events@),
            well_formed(r@),
    {
        let mut ledger = Ledger::new();
        let mut k: usize = 0;
        while k < events.len()
            invariant
                k <= events@.len(),
                ledger@ == run(empty_model(), events@.take(k as int)),
                well_formed(ledger@),
            decreases events@.len() - k,
        {
            proof {
                assert(events@.take(k + 1).drop_last() == events@.take(k as int));
            }
            ledger.apply(events[k]);
            k = k + 1;
        }
        proof {
            assert(events@.take(events@.len() as int) == events@);
        }
        ledger
    }

    /// The client has an account and it is locked.
    fn locked(&self, client: u16) -> (r: bool)
        ensures
            r == is_locked(self@, client),
    {
        match self.accounts.get(client) {
            Some(a) => a.locked,
            None => false,
        }
    }

    /// Applies one event, in arrival order.
    pub fn apply(&mut self, event: Event)
        requires
            well_formed(old(self)@),
        ensures
            final(self)@ == step(old(self)@, event),
            well_formed(final(self)@),
    {
        proof {
            lemma_step_keeps_well_formed(self@, event);
        }
        match event {
            Event::Deposit { client, tx, amount } => {
                if !self.locked(client) {
                    self.deposit(client, tx, amount);
                }
            },
            Event::Withdrawal { client, tx, amount } => {
                if !self.locked(client) {
                    self.withdraw(client, tx, amount);
                }
            },
            Event::Dispute { client, tx } => {
                if !self.locked(client) {
                    self.dispute(client, tx);
                }
            },
            Event::Resolve { client, tx } => {
                if !self.locked(client) {
                    self.resolve(client, tx);
                }
            },
            Event::Chargeback { client, tx } => {
                if !self.locked(client) {
                    self.chargeback(client, tx);
                }
            },
            Event::Unknown => {},
        }
    }

    fn deposit(&mut self, client: u16, tx: u32, amount: i64)
        ensures
            final(self)@ == deposit_step(old(self)@, client, tx, amount),
    {
        let record = TxRecord { kind: TxKind::Deposit, client, amount, disputed: false };
        match self.accounts.get(client) {
            None => {
                let opened = Account { client, available: amount, held: 0, total: amount, locked: false };
                self.accounts.insert(client, opened);
                self.txs.insert(tx, record);
            },
            Some(a) => {
                match (a.available.checked_add(amount), a.total.checked_add(amount)) {
                    (Some(available), Some(total)) => {
                        let next = Account { client, available, held: a.held, total, locked: a.locked };
                        self.accounts.insert(client, next);
                        self.txs.insert(tx, record);
                    },
                    _ => {},
                }
            },
        }
    }

    fn withdraw(&mut self, client: u16, tx: u32, amount: i64)
        ensures
            final(self)@ == withdrawal_step(old(self)@, client, tx, amount),
    {
        let record = TxRecord { kind: TxKind::Withdrawal, client, amount, disputed: false };
        match self.accounts.get(client) {
            Some(a) => {
                if a.available < amount {
                    self.txs.insert(tx, record);
                } else {
                    match (a.available.checked_sub(amount), a.total.checked_sub(amount)) {
                        (Some(available), Some(total)) => {
                            let next = Account { client, available, held: a.held, total, locked: a.locked };
                            self.accounts.insert(client, next);
                            self.txs.insert(tx, record);
                        },
                        _ => {},
                    }
                }
            },
            None => {
                self.txs.insert(tx, record);
            },
        }
    }

    fn dispute(&mut self, client: u16, tx: u32)
        ensures
            final(self)@ == dispute_step(old(self)@, client, tx),
    {
        match (self.accounts.get(client), self.txs.get(tx)) {
            (Some(a), Some(r)) => {
                let marked = TxRecord { kind: r.kind, client: r.client, amount: r.amount, disputed: true };
                match r.kind {
                    TxKind::Deposit => {
                        match (a.available.checked_sub(r.amount), a.held.checked_add(r.amount)) {
                            (Some(available), Some(held)) => {
                                let next = Account { client, available, held, total: a.total, locked: a.locked };
                                self.accounts.insert(client, next);
                                self.txs.insert(tx, marked);
                            },
                            _ => {},
                        }
                    },
                    TxKind::Withdrawal => {
                        self.txs.insert(tx, marked);
                    },
                }
            },
            _ => {},
        }
    }

    fn resolve(&mut self, client: u16, tx: u32)
        ensures
            final(self)@ == resolve_step(old(self)@, client, tx),
    {
        match (self.accounts.get(client), self.txs.get(tx)) {
            (Some(a), Some(r)) => {
                if r.disputed {
                    match (a.available.checked_add(r.amount), a.held.checked_sub(r.amount)) {
                        (Some(available), Some(held)) => {
                            let next = Account { client, available, held, total: a.total, locked: a.locked };
                            let cleared = TxRecord { kind: r.kind, client: r.client, amount: r.amount, disputed: false };
                            self.accounts.insert(client, next);
                            self.txs.insert(tx, cleared);
                        },
                        _ => {},
                    }
                }
            },
            _ => {},
        }
    }

    fn chargeback(&mut self, client: u16, tx: u32)
        ensures
            final(self)@ == chargeback_step(old(self)@, client, tx),
    {
        match (self.accounts.get(client), self.txs.get(tx)) {
            (Some(a), Some(r)) => {
                if r.disputed {
                    match (a.held.checked_sub(r.amount), a.total.checked_sub(r.amount)) {
                        (Some(held), Some(total)) => {
                            let next = Account { client, available: a.available, held, total, locked: true };
                            self.accounts.insert(client, next);
                        },
                        _ => {},
                    }
                }
            },
            _ => {},
        }
    }

    /// The account of the client, if it has one.
    pub fn account(&self, client: u16) -> (r: Option<Account>)
        ensures
            r == (if self@.accounts.contains_key(client) {
                Some(self@.accounts[client])
            } else {
                None
            }),
    {
        self.accounts.get(client)
    }

    /// The stored deposit or withdrawal with this id, if any.
    pub fn transaction(&self, tx: u32) -> (r: Option<TxRecord>)
        ensures
            r == (if self@.txs.contains_key(tx) {
                Some(self@.txs[tx])
            } else {
                None
            }),
    {
        self.txs.get(tx)
    }

    /// Every account once, in no particular order.
    pub fn accounts(&self) -> (r: Vec<Account>)
        requires
            well_formed(self@),
        ensures
            forall|i: int|
                0 <= i < r@.len() ==> #[trigger] self@.accounts.contains_key(r@[i].client)
                    && self@.accounts[r@[i].client] == r@[i],
            forall|c: u16| #[trigger]
                self@.accounts.contains_key(c) ==> exists|i: int|
                    0 <= i < r@.len() && r@[i].client == c,
            forall|i: int, j: int| 0 <= i < j < r@.len() ==> r@[i].client != r@[j].client,
    {
        let entries = self.accounts.entries();
        let mut r: Vec<Account> = Vec::new();
        let mut k: usize = 0;
        while k < entries.len()
            invariant
                k <= entries@.len(),
                r@.len() == k,
                forall|i: int| 0 <= i < k ==> r@[i] == entries@[i].1,
                well_formed(self@),
                forall|i: int|
                    0 <= i < entries@.len() ==> #[trigger] self.accounts@.contains_key(
                        entries@[i].0,
                    ) && self.accounts@[entries@[i].0] == entries@[i].1,
            decreases entries@.len() - k,
        {
            r.push(entries[k].1);
            k = k + 1;
        }
        assert forall|i: int| 0 <= i < r@.len() implies r@[i].client == entries@[i].0 by {
            assert(self@.accounts.contains_key(entries@[i].0));
        }
        assert forall|c: u16| #[trigger] self@.accounts.contains_key(c) implies exists|i: int|
            0 <= i < r@.len() && r@[i].client == c by {
            let i = choose|i: int| 0 <= i < entries@.len() && entries@[i].0 == c;
            assert(r@[i].client == c);
        }
        r
    }
}

} // verus!
