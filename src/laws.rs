//! Laws of the account state machine, stated over the transition functions
//! and proved.

use vstd::prelude::*;
use crate::account::{
    charged_back, disputed, find_transaction, is_first_match, opened, resolved, withdrawn,
    ClientView,
};
use crate::processor::{client_of, client_step, find_client, is_first_client, step, unique_clients, Transaction};

verus! {

proof fn lemma_first_client(s: Seq<ClientView>, id: u16, i: int)
    requires
        is_first_client(s, id, i),
    ensures
        find_client(s, id) == Some(i),
{
    let k = choose|k: int| is_first_client(s, id, k);
    assert(k == i) by {
        if k < i {
            assert(s[k].client_id != id);
        } else if k > i {
            assert(s[i].client_id != id);
        }
    }
}

proof fn lemma_unique_client(s: Seq<ClientView>, id: u16, i: int)
    requires
        unique_clients(s),
        0 <= i < s.len(),
        s[i].client_id == id,
    ensures
        find_client(s, id) == Some(i),
{
    assert forall|j: int| 0 <= j < i implies (#[trigger] s[j]).client_id != id by {
        assert(s[j].client_id != s[i].client_id);
    }
    lemma_first_client(s, id, i);
}

proof fn lemma_no_client(s: Seq<ClientView>, id: u16)
    requires
        forall|j: int| 0 <= j < s.len() ==> (#[trigger] s[j]).client_id != id,
    ensures
        find_client(s, id) is None,
{
}

proof fn lemma_first_transaction(
    txs: Seq<crate::account::ApprovedTransaction>,
    id: u32,
    i: int,
)
    requires
        is_first_match(txs, id, i),
    ensures
        find_transaction(txs, id) == Some(i),
{
    let k = choose|k: int| is_first_match(txs, id, k);
    assert(k == i) by {
        if k < i {
            assert(txs[k].transaction_id != id);
        } else if k > i {
            assert(txs[i].transaction_id != id);
        }
    }
}

/// A transaction applied to an account keeps its client id.
proof fn lemma_client_step_keeps_id(c: ClientView, t: Transaction)
    ensures
        client_step(c, t) matches Some(n) ==> n.client_id == c.client_id,
{
}

/// Processing keeps client ids unique: every sequence of transactions that
/// starts with no accounts leaves at most one account per client.
pub proof fn lemma_step_keeps_clients_unique(s: Seq<ClientView>, t: Transaction)
    requires
        unique_clients(s),
    ensures
        step(s, t) matches Some(n) ==> unique_clients(n),
{
    lemma_client_step_keeps_id(match find_client(s, client_of(t)) {
        Some(i) => s[i],
        None => s[0],
    }, t);
    match find_client(s, client_of(t)) {
        Some(i) => {
            let k = choose|k: int| is_first_client(s, client_of(t), k);
            assert(k == i);
        },
        None => {
            if let Transaction::Deposit { client_id, transaction_id, amount } = t {
                let n = s.push(opened(client_id, transaction_id, amount));
                assert forall|j: int| 0 <= j < s.len() implies (#[trigger] s[j]).client_id
                    != client_id by {
                    if s[j].client_id == client_id {
                        assert forall|m: int| 0 <= m < j implies (#[trigger] s[m]).client_id
                            != client_id by {
                            assert(s[m].client_id != s[j].client_id);
                        }
                        assert(is_first_client(s, client_id, j));
                    }
                }
                assert(unique_clients(n));
            }
        },
    }
}

/// A deposit for a client with no account opens exactly one account for it,
/// with the deposit available, nothing held, and no lock.
pub proof fn lemma_first_deposit_opens_account(
    s: Seq<ClientView>,
    client_id: u16,
    transaction_id: u32,
    amount: i64,
)
    requires
        forall|j: int| 0 <= j < s.len() ==> (#[trigger] s[j]).client_id != client_id,
    ensures
        step(s, Transaction::Deposit { client_id, transaction_id, amount }) matches Some(n) && {
            &&& n.len() == s.len() + 1
            &&& n.subrange(0, s.len() as int) == s
            &&& forall|j: int| 0 <= j < n.len() ==> ((#[trigger] n[j]).client_id == client_id
                <==> j == s.len())
            &&& n[s.len() as int].available == amount
            &&& n[s.len() as int].held == 0
            &&& !n[s.len() as int].locked
        },
{
    lemma_no_client(s, client_id);
    let n = s.push(opened(client_id, transaction_id, amount));
    assert(n.subrange(0, s.len() as int) =~= s);
}

/// A withdrawal of more than the available funds changes no account.
pub proof fn lemma_overdraft_changes_nothing(
    s: Seq<ClientView>,
    i: int,
    transaction_id: u32,
    amount: i64,
)
    requires
        unique_clients(s),
        0 <= i < s.len(),
        amount > s[i].available,
    ensures
        step(s, Transaction::Withdrawal { client_id: s[i].client_id, transaction_id, amount })
            == Some(s),
{
    lemma_unique_client(s, s[i].client_id, i);
    assert(withdrawn(s[i], amount) == Some(s[i]));
    assert(s.update(i, s[i]) =~= s);
}

/// On one account, a resolve of a deposit right after its dispute gives
/// back the available and held funds from before the dispute.
pub proof fn lemma_client_dispute_resolve(c: ClientView, transaction_id: u32)
    requires
        c.in_range(),
        disputed(c, transaction_id) is Some,
    ensures
        resolved(disputed(c, transaction_id)->Some_0, transaction_id) matches Some(r) && r.available
            == c.available && r.held == c.held,
{
    let c1 = disputed(c, transaction_id)->Some_0;
    if !c.locked {
        if let Some(k) = find_transaction(c.transactions, transaction_id) {
            let k0 = choose|k0: int| is_first_match(c.transactions, transaction_id, k0);
            assert(k0 == k);
            assert forall|j: int| 0 <= j < k implies (#[trigger] c1.transactions[j]).transaction_id
                != transaction_id by {
                assert(c.transactions[j].transaction_id != transaction_id);
            }
            lemma_first_transaction(c1.transactions, transaction_id, k);
        }
    }
}

/// A dispute and then a resolve of the same deposit leave every account's
/// available and held funds as they were before the dispute.
pub proof fn lemma_dispute_then_resolve_restores(
    s: Seq<ClientView>,
    client_id: u16,
    transaction_id: u32,
)
    requires
        forall|j: int| 0 <= j < s.len() ==> (#[trigger] s[j]).in_range(),
        step(s, Transaction::Dispute { client_id, transaction_id }) is Some,
    ensures
        step(
            step(s, Transaction::Dispute { client_id, transaction_id })->Some_0,
            Transaction::Resolve { client_id, transaction_id },
        ) matches Some(n) && {
            &&& n.len() == s.len()
            &&& forall|j: int|
                0 <= j < s.len() ==> (#[trigger] n[j]).available == s[j].available && n[j].held
                    == s[j].held
        },
{
    let s1 = step(s, Transaction::Dispute { client_id, transaction_id })->Some_0;
    match find_client(s, client_id) {
        Some(i) => {
            let k = choose|k: int| is_first_client(s, client_id, k);
            assert(k == i);
            lemma_client_dispute_resolve(s[i], transaction_id);
            assert forall|j: int| 0 <= j < i implies (#[trigger] s1[j]).client_id != client_id by {
                assert(s[j].client_id != client_id);
            }
            lemma_first_client(s1, client_id, i);
        },
        None => {},
    }
}

/// A chargeback right after a dispute of a deposit of an unlocked account
/// locks that account.
pub proof fn lemma_dispute_then_chargeback_locks(
    s: Seq<ClientView>,
    i: int,
    k: int,
)
    requires
        unique_clients(s),
        0 <= i < s.len(),
        !s[i].locked,
        0 <= k < s[i].transactions.len(),
        step(
            s,
            Transaction::Dispute {
                client_id: s[i].client_id,
                transaction_id: s[i].transactions[k].transaction_id,
            },
        ) is Some,
    ensures
        step(
            step(
                s,
                Transaction::Dispute {
                    client_id: s[i].client_id,
                    transaction_id: s[i].transactions[k].transaction_id,
                },
            )->Some_0,
            Transaction::Chargeback {
                client_id: s[i].client_id,
                transaction_id: s[i].transactions[k].transaction_id,
            },
        ) matches Some(n) ==> n[i].locked,
{
    let id = s[i].client_id;
    let tx = s[i].transactions[k].transaction_id;
    let c = s[i];
    lemma_unique_client(s, id, i);
    assert(exists|m: int| is_first_match(c.transactions, tx, m)) by {
        assert(c.transactions[k].transaction_id == tx);
        if !is_first_match(c.transactions, tx, k) {
            let m = choose|m: int| 0 <= m < k && (#[trigger] c.transactions[m]).transaction_id == tx;
            lemma_least_match(c.transactions, tx, m);
        }
    }
    let c1 = disputed(c, tx)->Some_0;
    let m = choose|m: int| is_first_match(c.transactions, tx, m);
    assert forall|j: int| 0 <= j < m implies (#[trigger] c1.transactions[j]).transaction_id != tx by {
        assert(c.transactions[j].transaction_id != tx);
    }
    lemma_first_transaction(c1.transactions, tx, m);
    let s1 = step(s, Transaction::Dispute { client_id: id, transaction_id: tx })->Some_0;
    assert forall|j: int| 0 <= j < i implies (#[trigger] s1[j]).client_id != id by {
        assert(s[j].client_id != id);
    }
    lemma_first_client(s1, id, i);
    assert(charged_back(c1, tx) matches Some(r) ==> r.locked);
}

/// Where `txs[m]` has the id `id`, some entry is the first with it.
proof fn lemma_least_match(txs: Seq<crate::account::ApprovedTransaction>, id: u32, m: int)
    requires
        0 <= m < txs.len(),
        txs[m].transaction_id == id,
    ensures
        exists|f: int| is_first_match(txs, id, f),
    decreases m,
{
    if !is_first_match(txs, id, m) {
        let p = choose|p: int| 0 <= p < m && (#[trigger] txs[p]).transaction_id == id;
        lemma_least_match(txs, id, p);
    }
}

/// Every transaction for a client whose account is locked changes no
/// account.
pub proof fn lemma_locked_account_is_frozen(s: Seq<ClientView>, i: int, t: Transaction)
    requires
        unique_clients(s),
        0 <= i < s.len(),
        s[i].locked,
        client_of(t) == s[i].client_id,
    ensures
        step(s, t) == Some(s),
{
    lemma_unique_client(s, s[i].client_id, i);
    assert(s.update(i, s[i]) =~= s);
}

} // verus!
