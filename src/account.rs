//! One client's account: its balances, its lock, and the history of the
//! deposits it accepted, with the rule for each kind of transaction.

use vstd::prelude::*;
use crate::amount::AmountError;

verus! {

/// Why processing a transaction stopped the run.
#[derive(Debug, Clone, Copy, PartialEq, Eq, Structural)]
pub enum ProcessError {
    /// The amount text of a deposit or withdrawal could not be read.
    InvalidAmount(AmountError),
    /// A balance would leave the range that an amount can hold.
    Overflow,
}

/// A deposit accepted into an account's history.
#[derive(Debug, Clone, Copy, PartialEq, Eq, Structural)]
pub struct ApprovedTransaction {
    pub transaction_id: u32,
    /// In ten-thousandths.
    pub amount: i64,
    pub in_dispute: bool,
}

/// A client's account. Balances are in ten-thousandths.
#[derive(Debug)]
pub struct Client {
    pub client_id: u16,
    pub current_transactions: Vec<ApprovedTransaction>,
    pub available: i64,
    pub held: i64,
    pub locked: bool,
}

/// The mathematical value of a `Client`.
pub struct ClientView {
    pub client_id: u16,
    pub transactions: Seq<ApprovedTransaction>,
    pub available: int,
    pub held: int,
    pub locked: bool,
}

impl View for Client {
    type V = ClientView;

    open spec fn view(&self) -> ClientView {
        ClientView {
            client_id: self.client_id,
            transactions: self.current_transactions@,
            available: self.available as int,
            held: self.held as int,
            locked: self.locked,
        }
    }
}

impl ClientView {
    /// Funds usable or held: always `available + held`.
    pub open spec fn total(self) -> int {
        self.available + self.held
    }

    /// Both balances can be held in an `i64`, as those of every `Client` are.
    pub open spec fn in_range(self) -> bool {
        fits(self.available) && fits(self.held)
    }
}

/// `x` can be held in an `i64`.
pub open spec fn fits(x: int) -> bool {
    i64::MIN <= x <= i64::MAX
}

/// `i` is the first entry of `txs` with the id `id`.
pub open spec fn is_first_match(txs: Seq<ApprovedTransaction>, id: u32, i: int) -> bool {
    &&& 0 <= i < txs.len()
    &&& txs[i].transaction_id == id
    &&& forall|j: int| 0 <= j < i ==> (#[trigger] txs[j]).transaction_id != id
}

/// The first entry of `txs` with the id `id`, if there is one.
pub open spec fn find_transaction(txs: Seq<ApprovedTransaction>, id: u32) -> Option<int> {
    if exists|i: int| is_first_match(txs, id, i) {
        Some(choose|i: int| is_first_match(txs, id, i))
    } else {
        None
    }
}

/// The account that a first deposit opens.
pub open spec fn opened(client_id: u16, transaction_id: u32, amount: i64) -> ClientView {
    ClientView {
        client_id,
        transactions: seq![ApprovedTransaction { transaction_id, amount, in_dispute: false }],
        available: amount as int,
        held: 0,
        locked: false,
    }
}

/// The account after a deposit; `None` where a balance would overflow.
pub open spec fn deposited(c: ClientView, transaction_id: u32, amount: i64) -> Option<ClientView> {
    if c.locked {
        Some(c)
    } else if fits(c.available + amount) {
        Some(
            ClientView {
                transactions: c.transactions.push(
                    ApprovedTransaction { transaction_id, amount, in_dispute: false },
                ),
                available: c.available + amount,
                ..c
            },
        )
    } else {
        None
    }
}

/// The account after a withdrawal; one that exceeds the available funds
/// changes nothing.
pub open spec fn withdrawn(c: ClientView, amount: i64) -> Option<ClientView> {
    if c.locked || c.available < amount {
        Some(c)
    } else if fits(c.available - amount) {
        Some(ClientView { available: c.available - amount, ..c })
    } else {
        None
    }
}

/// The account after a dispute of the deposit `transaction_id`: its amount
/// moves from available to held.
pub open spec fn disputed(c: ClientView, transaction_id: u32) -> Option<ClientView> {
    if c.locked {
        Some(c)
    } else {
        match find_transaction(c.transactions, transaction_id) {
            None => Some(c),
            Some(i) => {
                let t = c.transactions[i];
                if fits(c.available - t.amount) && fits(c.held + t.amount) {
                    Some(
                        ClientView {
                            transactions: c.transactions.update(
                                i,
                                ApprovedTransaction { in_dispute: true, ..t },
                            ),
                            available: c.available - t.amount,
                            held: c.held + t.amount,
                            ..c
                        },
                    )
                } else {
                    None
                }
            },
        }
    }
}

/// The account after a resolve of the deposit `transaction_id`: a disputed
/// amount moves back from held to available.
pub open spec fn resolved(c: ClientView, transaction_id: u32) -> Option<ClientView> {
    if c.locked {
        Some(c)
    } else {
        match find_transaction(c.transactions, transaction_id) {
            None => Some(c),
            Some(i) => {
                let t = c.transactions[i];
                if !t.in_dispute {
                    Some(c)
                } else if fits(c.available + t.amount) && fits(c.held - t.amount) {
                    Some(
                        ClientView {
                            transactions: c.transactions.update(
                                i,
                                ApprovedTransaction { in_dispute: false, ..t },
                            ),
                            available: c.available + t.amount,
                            held: c.held - t.amount,
                            ..c
                        },
                    )
                } else {
                    None
                }
            },
        }
    }
}

/// The account after a chargeback of the deposit `transaction_id`: a
/// disputed amount leaves held and the account locks.
pub open spec fn charged_back(c: ClientView, transaction_id: u32) -> Option<ClientView> {
    if c.locked {
        Some(c)
    } else {
        match find_transaction(c.transactions, transaction_id) {
            None => Some(c),
            Some(i) => {
                let t = c.transactions[i];
                if !t.in_dispute {
                    Some(c)
                } else if fits(c.held - t.amount) {
                    Some(ClientView { held: c.held - t.amount, locked: true, ..c })
                } else {
                    None
                }
            },
        }
    }
}

/// A call that changes `before` into `after` and returns `r` did what
/// `next` says: the new account, or an overflow that leaves it unchanged.
pub open spec fn applied(
    r: Result<(), ProcessError>,
    before: ClientView,
    after: ClientView,
    next: Option<ClientView>,
) -> bool {
    match next {
        Some(n) => r == Ok::<(), ProcessError>(()) && after == n,
        None => r == Err::<(), ProcessError>(ProcessError::Overflow) && after == before,
    }
}

impl Client {
    /// Opens an account with its first deposit.
    pub fn open(client_id: u16, transaction_id: u32, amount: i64) -> (r: Client)
        ensures
            r@ == opened(client_id, transaction_id, amount),
    {
        let mut current_transactions: Vec<ApprovedTransaction> = Vec::new();
        current_transactions.push(ApprovedTransaction { transaction_id, amount, in_dispute: false });
        let r = Client { client_id, current_transactions, available: amount, held: 0, locked: false };
        assert(r@.transactions =~= opened(client_id, transaction_id, amount).transactions);
        r
    }

    /// Available plus held funds.
    pub fn total(&self) -> (r: i128)
        ensures
            r == self@.total(),
    {
        self.available as i128 + self.held as i128
    }

    /// The index of the first deposit with the id `transaction_id`.
    pub fn find_transaction(&self, transaction_id: u32) -> (r: Option<usize>)
        ensures
            match r {
                Some(i) => find_transaction(self@.transactions, transaction_id) == Some(i as int),
                None => find_transaction(self@.transactions, transaction_id) is None,
            },
    {
        let txs = &self.current_transactions;
        let mut i: usize = 0;
        while i < txs.len()
            invariant
                i <= txs@.len(),
                txs@ == self@.transactions,
                forall|j: int| 0 <= j < i ==> (#[trigger] txs@[j]).transaction_id != transaction_id,
            decreases txs@.len() - i,
        {
            if txs[i].transaction_id == transaction_id {
                assert(is_first_match(txs@, transaction_id, i as int));
                proof {
                    let k = choose|k: int| is_first_match(txs@, transaction_id, k);
                    assert(k == i as int) by {
                        if k < i {
                            assert(txs@[k].transaction_id != transaction_id);
                        } else if k > i {
                            assert(txs@[i as int].transaction_id != transaction_id);
                        }
                    }
                }
                return Some(i);
            }
            i = i + 1;
        }
        None
    }
}

/// Credits `amount` and records the deposit, unless the account is locked.
pub fn process_deposit(client: &mut Client, transaction_id: u32, amount: i64) -> (r: Result<
    (),
    ProcessError,
>)
    ensures
        applied(r, old(client)@, final(client)@, deposited(old(client)@, transaction_id, amount)),
{
    if client.locked {
        return Ok(());
    }
    match client.available.checked_add(amount) {
        None => Err(ProcessError::Overflow),
        Some(a) => {
            client.available = a;
            client.current_transactions.push(
                ApprovedTransaction { transaction_id, amount, in_dispute: false },
            );
            Ok(())
        },
    }
}

/// Debits `amount` where the available funds cover it and the account is
/// not locked; otherwise changes nothing.
pub fn process_withdrawal(client: &mut Client, amount: i64) -> (r: Result<(), ProcessError>)
    ensures
        applied(r, old(client)@, final(client)@, withdrawn(old(client)@, amount)),
{
    if client.locked || client.available < amount {
        return Ok(());
    }
    match client.available.checked_sub(amount) {
        None => Err(ProcessError::Overflow),
        Some(a) => {
            client.available = a;
            Ok(())
        },
    }
}

/// Marks the deposit `transaction_id` as disputed and holds its amount.
pub fn process_dispute(client: &mut Client, transaction_id: u32) -> (r: Result<(), ProcessError>)
    ensures
        applied(r, old(client)@, final(client)@, disputed(old(client)@, transaction_id)),
{
    if client.locked {
        return Ok(());
    }
    match client.find_transaction(transaction_id) {
        None => Ok(()),
        Some(i) => {
            let t = client.current_transactions[i];
            match (client.available.checked_sub(t.amount), client.held.checked_add(t.amount)) {
                (Some(a), Some(h)) => {
                    client.current_transactions.set(
                        i,
                        ApprovedTransaction { in_dispute: true, ..t },
                    );
                    client.available = a;
                    client.held = h;
                    Ok(())
                },
                _ => Err(ProcessError::Overflow),
            }
        },
    }
}

/// Releases the held amount of the disputed deposit `transaction_id`.
pub fn process_resolve(client: &mut Client, transaction_id: u32) -> (r: Result<(), ProcessError>)
    ensures
        applied(r, old(client)@, final(client)@, resolved(old(client)@, transaction_id)),
{
    if client.locked {
        return Ok(());
    }
    match client.find_transaction(transaction_id) {
        None => Ok(()),
        Some(i) => {
            let t = client.current_transactions[i];
            if !t.in_dispute {
                return Ok(());
            }
            match (client.available.checked_add(t.amount), client.held.checked_sub(t.amount)) {
                (Some(a), Some(h)) => {
                    client.current_transactions.set(
                        i,
                        ApprovedTransaction { in_dispute: false, ..t },
                    );
                    client.available = a;
                    client.held = h;
                    Ok(())
                },
                _ => Err(ProcessError::Overflow),
            }
        },
    }
}

/// Writes off the held amount of the disputed deposit `transaction_id` and
/// locks the account.
pub fn process_chargeback(client: &mut Client, transaction_id: u32) -> (r: Result<
    (),
    ProcessError,
>)
    ensures
        applied(r, old(client)@, final(client)@, charged_back(old(client)@, transaction_id)),
{
    if client.locked {
        return Ok(());
    }
    match client.find_transaction(transaction_id) {
        None => Ok(()),
        Some(i) => {
            let t = client.current_transactions[i];
            if !t.in_dispute {
                return Ok(());
            }
            match client.held.checked_sub(t.amount) {
                Some(h) => {
                    client.held = h;
                    client.locked = true;
                    Ok(())
                },
                None => Err(ProcessError::Overflow),
            }
        },
    }
}

} // verus!
