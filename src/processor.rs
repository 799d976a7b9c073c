//! The account processor: it turns each input record into a transaction and
//! applies it to the account of its client, opening accounts on first
//! deposit.

use vstd::prelude::*;
use vstd::string::StringSliceAdditionalSpecFns;
use crate::account::{
    charged_back, deposited, disputed, opened, process_chargeback, process_deposit,
    process_dispute, process_resolve, process_withdrawal, resolved, withdrawn, Client,
    ClientView, ProcessError,
};
use crate::amount::{amount_result, parse_amount};

verus! {

/// One input record, with its fields as text and numbers.
pub struct Row<'a> {
    pub transaction_type: &'a str,
    pub client_id: u16,
    pub transaction_id: u32,
    pub amount: &'a str,
}

/// A transaction of one of the five kinds, with the fields that it needs.
/// Amounts are in ten-thousandths.
#[derive(Debug, Clone, Copy, PartialEq, Eq, Structural)]
pub enum Transaction {
    Deposit { client_id: u16, transaction_id: u32, amount: i64 },
    Withdrawal { client_id: u16, transaction_id: u32, amount: i64 },
    Dispute { client_id: u16, transaction_id: u32 },
    Resolve { client_id: u16, transaction_id: u32 },
    Chargeback { client_id: u16, transaction_id: u32 },
}

/// The client that a transaction is for.
pub open spec fn client_of(t: Transaction) -> u16 {
    match t {
        Transaction::Deposit { client_id, .. } => client_id,
        Transaction::Withdrawal { client_id, .. } => client_id,
        Transaction::Dispute { client_id, .. } => client_id,
        Transaction::Resolve { client_id, .. } => client_id,
        Transaction::Chargeback { client_id, .. } => client_id,
    }
}

/// What reading a record gives: the transaction, `None` for a type that is
/// none of the five, or the error of an unreadable amount. Only deposits and
/// withdrawals read their amount.
pub open spec fn row_transaction(row: Row) -> Result<Option<Transaction>, ProcessError> {
    let ty = row.transaction_type@;
    let client_id = row.client_id;
    let transaction_id = row.transaction_id;
    if ty == "deposit"@ || ty == "withdrawal"@ {
        match amount_result(row.amount.spec_bytes()) {
            Err(e) => Err(ProcessError::InvalidAmount(e)),
            Ok(amount) => if ty == "deposit"@ {
                Ok(Some(Transaction::Deposit { client_id, transaction_id, amount }))
            } else {
                Ok(Some(Transaction::Withdrawal { client_id, transaction_id, amount }))
            },
        }
    } else if ty == "dispute"@ {
        Ok(Some(Transaction::Dispute { client_id, transaction_id }))
    } else if ty == "resolve"@ {
        Ok(Some(Transaction::Resolve { client_id, transaction_id }))
    } else if ty == "chargeback"@ {
        Ok(Some(Transaction::Chargeback { client_id, transaction_id }))
    } else {
        Ok(None)
    }
}

/// The account after `t` is applied to it; `None` on overflow.
pub open spec fn client_step(c: ClientView, t: Transaction) -> Option<ClientView> {
    match t {
        Transaction::Deposit { transaction_id, amount, .. } => deposited(c, transaction_id, amount),
        Transaction::Withdrawal { amount, .. } => withdrawn(c, amount),
        Transaction::Dispute { transaction_id, .. } => disputed(c, transaction_id),
        Transaction::Resolve { transaction_id, .. } => resolved(c, transaction_id),
        Transaction::Chargeback { transaction_id, .. } => charged_back(c, transaction_id),
    }
}

/// `i` is the first account of `s` with the id `id`.
pub open spec fn is_first_client(s: Seq<ClientView>, id: u16, i: int) -> bool {
    &&& 0 <= i < s.len()
    &&& s[i].client_id == id
    &&& forall|j: int| 0 <= j < i ==> (#[trigger] s[j]).client_id != id
}

/// The first account of `s` with the id `id`, if there is one.
pub open spec fn find_client(s: Seq<ClientView>, id: u16) -> Option<int> {
    if exists|i: int| is_first_client(s, id, i) {
        Some(choose|i: int| is_first_client(s, id, i))
    } else {
        None
    }
}

/// The accounts after `t`: it goes to its client's account; a deposit for a
/// client with none opens one at the end; anything else for such a client
/// changes nothing. `None` on overflow.
pub open spec fn step(s: Seq<ClientView>, t: Transaction) -> Option<Seq<ClientView>> {
    match find_client(s, client_of(t)) {
        Some(i) => match client_step(s[i], t) {
            Some(c) => Some(s.update(i, c)),
            None => None,
        },
        None => match t {
            Transaction::Deposit { client_id, transaction_id, amount } => Some(
                s.push(opened(client_id, transaction_id, amount)),
            ),
            _ => Some(s),
        },
    }
}

/// No two accounts share a client id.
pub open spec fn unique_clients(s: Seq<ClientView>) -> bool {
    forall|i: int, j: int|
        0 <= i < s.len() && 0 <= j < s.len() && i != j ==> (#[trigger] s[i]).client_id != (
        #[trigger] s[j]).client_id
}

/// Whether two texts hold the same characters.
fn text_eq(a: &str, b: &str) -> (r: bool)
    ensures
        r == (a@ == b@),
{
    let x = a.as_bytes();
    let y = b.as_bytes();
    proof {
        vstd::utf8::encode_utf8_decode_utf8(a@);
        vstd::utf8::encode_utf8_decode_utf8(b@);
    }
    if x.len() != y.len() {
        return false;
    }
    let mut i: usize = 0;
    while i < x.len()
        invariant
            x@.len() == y@.len(),
            i <= x@.len(),
            x@ == a.spec_bytes(),
            y@ == b.spec_bytes(),
            forall|j: int| 0 <= j < i ==> x@[j] == y@[j],
        decreases x@.len() - i,
    {
        if x[i] != y[i] {
            return false;
        }
        i = i + 1;
    }
    assert(x@ =~= y@);
    true
}

impl Transaction {
    /// The client that the transaction is for.
    pub fn client_id(&self) -> (r: u16)
        ensures
            r == client_of(*self),
    {
        match *self {
            Transaction::Deposit { client_id, .. } => client_id,
            Transaction::Withdrawal { client_id, .. } => client_id,
            Transaction::Dispute { client_id, .. } => client_id,
            Transaction::Resolve { client_id, .. } => client_id,
            Transaction::Chargeback { client_id, .. } => client_id,
        }
    }

    /// Reads a record: the transaction, `None` for an unknown type, or the
    /// error of a deposit's or withdrawal's unreadable amount.
    pub fn from_row(row: &Row) -> (r: Result<Option<Transaction>, ProcessError>)
        ensures
            r == row_transaction(*row),
    {
        let client_id = row.client_id;
        let transaction_id = row.transaction_id;
        let ty = row.transaction_type;
        let is_deposit = text_eq(ty, "deposit");
        if is_deposit || text_eq(ty, "withdrawal") {
            match parse_amount(row.amount) {
                Err(e) => Err(ProcessError::InvalidAmount(e)),
                Ok(amount) => if is_deposit {
                    Ok(Some(Transaction::Deposit { client_id, transaction_id, amount }))
                } else {
                    Ok(Some(Transaction::Withdrawal { client_id, transaction_id, amount }))
                },
            }
        } else if text_eq(ty, "dispute") {
            Ok(Some(Transaction::Dispute { client_id, transaction_id }))
        } else if text_eq(ty, "resolve") {
            Ok(Some(Transaction::Resolve { client_id, transaction_id }))
        } else if text_eq(ty, "chargeback") {
            Ok(Some(Transaction::Chargeback { client_id, transaction_id }))
        } else {
            Ok(None)
        }
    }
}

/// The accounts, in the order in which they were opened.
pub struct Processor {
    clients: Vec<Client>,
}

impl View for Processor {
    type V = Seq<ClientView>;

    closed spec fn view(&self) -> Seq<ClientView> {
        self.clients@.map_values(|c: Client| c@)
    }
}

/// A call that changes the accounts `before` into `after` and returns `r`
/// did what `next` says: the new accounts, or an overflow that leaves them
/// unchanged.
pub open spec fn stepped(
    r: Result<(), ProcessError>,
    before: Seq<ClientView>,
    after: Seq<ClientView>,
    next: Option<Seq<ClientView>>,
) -> bool {
    match next {
        Some(n) => r == Ok::<(), ProcessError>(()) && after == n,
        None => r == Err::<(), ProcessError>(ProcessError::Overflow) && after == before,
    }
}

/// What processing the record `row` does to the accounts `before`.
pub open spec fn recorded(
    r: Result<(), ProcessError>,
    before: Seq<ClientView>,
    after: Seq<ClientView>,
    row: Row,
) -> bool {
    match row_transaction(row) {
        Err(e) => r == Err::<(), ProcessError>(e) && after == before,
        Ok(None) => r == Ok::<(), ProcessError>(()) && after == before,
        Ok(Some(t)) => stepped(r, before, after, step(before, t)),
    }
}

impl Processor {
    /// A processor with no accounts.
    pub fn new() -> (r: Processor)
        ensures
            r@ == Seq::<ClientView>::empty(),
    {
        let r = Processor { clients: Vec::new() };
        assert(r@ =~= Seq::<ClientView>::empty());
        r
    }

    /// The accounts, in the order in which they were opened.
    pub fn clients(&self) -> (r: &Vec<Client>)
        ensures
            r@.map_values(|c: Client| c@) == self@,
    {
        &self.clients
    }

    /// The index of the account of `client_id`, if there is one.
    pub fn find_client(&self, client_id: u16) -> (r: Option<usize>)
        ensures
            match r {
                Some(i) => find_client(self@, client_id) == Some(i as int),
                None => find_client(self@, client_id) is None,
            },
    {
        let ghost s = self@;
        let mut i: usize = 0;
        while i < self.clients.len()
            invariant
                i <= self.clients@.len(),
                s == self@,
                s.len() == self.clients@.len(),
                forall|j: int| 0 <= j < i ==> (#[trigger] s[j]).client_id != client_id,
            decreases self.clients@.len() - i,
        {
            assert(s[i as int] == self.clients@[i as int]@);
            if self.clients[i].client_id == client_id {
                assert(is_first_client(s, client_id, i as int));
                proof {
                    let k = choose|k: int| is_first_client(s, client_id, k);
                    assert(k == i as int) by {
                        if k < i {
                            assert(s[k].client_id != client_id);
                        } else if k > i {
                            assert(s[i as int].client_id != client_id);
                        }
                    }
                }
                return Some(i);
            }
            i = i + 1;
        }
        None
    }

    /// Applies `t` to the account of its client, opening one for a first
    /// deposit.
    pub fn apply(&mut self, t: Transaction) -> (r: Result<(), ProcessError>)
        ensures
            stepped(r, old(self)@, final(self)@, step(old(self)@, t)),
    {
        let ghost s = self@;
        let id = t.client_id();
        match self.find_client(id) {
            Some(i) => {
                assert(self.clients@[i as int]@ == s[i as int]);
                let r = match t {
                    Transaction::Deposit { transaction_id, amount, .. } => process_deposit(
                        &mut self.clients[i],
                        transaction_id,
                        amount,
                    ),
                    Transaction::Withdrawal { amount, .. } => process_withdrawal(
                        &mut self.clients[i],
                        amount,
                    ),
                    Transaction::Dispute { transaction_id, .. } => process_dispute(
                        &mut self.clients[i],
                        transaction_id,
                    ),
                    Transaction::Resolve { transaction_id, .. } => process_resolve(
                        &mut self.clients[i],
                        transaction_id,
                    ),
                    Transaction::Chargeback { transaction_id, .. } => process_chargeback(
                        &mut self.clients[i],
                        transaction_id,
                    ),
                };
                assert(self@ =~= s.update(i as int, self.clients@[i as int]@));
                assert(r is Err ==> self@ =~= s);
                r
            },
            None => {
                match t {
                    Transaction::Deposit { client_id, transaction_id, amount } => {
                        self.clients.push(Client::open(client_id, transaction_id, amount));
                        assert(self@ =~= s.push(opened(client_id, transaction_id, amount)));
                    },
                    _ => {},
                }
                Ok(())
            },
        }
    }

    /// Reads the record `row` and applies its transaction. An unknown type
    /// changes nothing; an unreadable amount is an error that changes
    /// nothing.
    pub fn process_record(&mut self, row: &Row) -> (r: Result<(), ProcessError>)
        ensures
            recorded(r, old(self)@, final(self)@, *row),
    {
        match Transaction::from_row(row) {
            Err(e) => Err(e),
            Ok(None) => Ok(()),
            Ok(Some(t)) => self.apply(t),
        }
    }
}

} // verus!
