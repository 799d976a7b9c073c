use ledger_engine::{
    format_amount, parse_amount, AmountError, Client, ProcessError, Processor, Row, Transaction,
};

fn row<'a>(kind: &'a str, client_id: u16, transaction_id: u32, amount: &'a str) -> Row<'a> {
    Row { transaction_type: kind, client_id, transaction_id, amount }
}

fn run(p: &mut Processor, rows: &[Row]) {
    for r in rows {
        p.process_record(r).unwrap();
    }
}

fn account(p: &Processor, client_id: u16) -> &Client {
    let i = p.find_client(client_id).expect("account exists");
    &p.clients()[i]
}

fn text(v: i128) -> String {
    String::from_utf8(format_amount(v)).unwrap()
}

#[test]
fn dispute_then_overdraft_keeps_balances() {
    let mut p = Processor::new();
    run(
        &mut p,
        &[
            row("deposit", 1, 1, "5.0"),
            row("deposit", 2, 2, "10.0"),
            row("dispute", 1, 1, ""),
            row("withdrawal", 1, 3, "1.0"),
        ],
    );
    // The dispute moves the whole deposit to held, so the withdrawal of 1.0
    // exceeds the available 0 and changes nothing.
    let c1 = account(&p, 1);
    assert_eq!(text(c1.available as i128), "0.0000");
    assert_eq!(text(c1.held as i128), "5.0000");
    assert_eq!(text(c1.total()), "5.0000");
    assert!(!c1.locked);
    let c2 = account(&p, 2);
    assert_eq!(text(c2.available as i128), "10.0000");
    assert_eq!(text(c2.held as i128), "0.0000");
    assert_eq!(text(c2.total()), "10.0000");
    assert!(!c2.locked);
    assert_eq!(p.clients().len(), 2);
    assert_eq!(p.clients()[0].client_id, 1);
    assert_eq!(p.clients()[1].client_id, 2);
}

#[test]
fn chargeback_locks_and_later_deposit_is_ignored() {
    let mut p = Processor::new();
    run(
        &mut p,
        &[row("deposit", 1, 1, "5.0"), row("dispute", 1, 1, ""), row("chargeback", 1, 1, "")],
    );
    let c = account(&p, 1);
    assert_eq!(c.available, 0);
    assert_eq!(c.held, 0);
    assert_eq!(c.total(), 0);
    assert!(c.locked);
    run(&mut p, &[row("deposit", 1, 2, "100.0")]);
    let c = account(&p, 1);
    assert_eq!(c.available, 0);
    assert_eq!(c.held, 0);
    assert!(c.locked);
    assert_eq!(c.current_transactions.len(), 1);
}

#[test]
fn dispute_without_account_opens_none() {
    let mut p = Processor::new();
    run(&mut p, &[row("dispute", 99, 1, "")]);
    assert!(p.find_client(99).is_none());
    assert!(p.clients().is_empty());
}

#[test]
fn first_deposit_opens_one_account() {
    let mut p = Processor::new();
    run(&mut p, &[row("deposit", 7, 1, "2.5")]);
    assert_eq!(p.clients().len(), 1);
    let c = account(&p, 7);
    assert_eq!(c.available, 25000);
    assert_eq!(c.held, 0);
    assert!(!c.locked);
    run(&mut p, &[row("deposit", 7, 2, "1")]);
    assert_eq!(p.clients().len(), 1);
    assert_eq!(account(&p, 7).available, 35000);
}

#[test]
fn overdraft_changes_nothing() {
    let mut p = Processor::new();
    run(&mut p, &[row("deposit", 1, 1, "3"), row("withdrawal", 1, 2, "3.0001")]);
    let c = account(&p, 1);
    assert_eq!(c.available, 30000);
    assert_eq!(c.held, 0);
    assert!(!c.locked);
    run(&mut p, &[row("withdrawal", 1, 3, "3")]);
    assert_eq!(account(&p, 1).available, 0);
}

#[test]
fn withdrawal_without_account_opens_none() {
    let mut p = Processor::new();
    run(&mut p, &[row("withdrawal", 4, 1, "1.0")]);
    assert!(p.clients().is_empty());
}

#[test]
fn dispute_then_resolve_restores_balances() {
    let mut p = Processor::new();
    run(&mut p, &[row("deposit", 1, 1, "4.25"), row("deposit", 1, 2, "1.5")]);
    let before = (account(&p, 1).available, account(&p, 1).held);
    run(&mut p, &[row("dispute", 1, 2, "")]);
    assert_eq!(account(&p, 1).available, 42500);
    assert_eq!(account(&p, 1).held, 15000);
    assert!(account(&p, 1).current_transactions[1].in_dispute);
    run(&mut p, &[row("resolve", 1, 2, "")]);
    assert_eq!((account(&p, 1).available, account(&p, 1).held), before);
    assert!(!account(&p, 1).current_transactions[1].in_dispute);
}

#[test]
fn resolve_and_chargeback_need_a_dispute() {
    let mut p = Processor::new();
    run(&mut p, &[row("deposit", 1, 1, "2"), row("resolve", 1, 1, ""), row("chargeback", 1, 1, "")]);
    let c = account(&p, 1);
    assert_eq!(c.available, 20000);
    assert_eq!(c.held, 0);
    assert!(!c.locked);
}

#[test]
fn unknown_transaction_ids_are_ignored() {
    let mut p = Processor::new();
    run(&mut p, &[row("deposit", 1, 1, "2"), row("dispute", 1, 9, ""), row("chargeback", 1, 9, "")]);
    let c = account(&p, 1);
    assert_eq!(c.available, 20000);
    assert_eq!(c.held, 0);
    assert!(!c.locked);
}

#[test]
fn locked_account_ignores_every_kind() {
    let mut p = Processor::new();
    run(
        &mut p,
        &[
            row("deposit", 3, 1, "10"),
            row("deposit", 3, 2, "5"),
            row("dispute", 3, 1, ""),
            row("chargeback", 3, 1, ""),
        ],
    );
    let snapshot = (account(&p, 3).available, account(&p, 3).held, account(&p, 3).locked);
    assert_eq!(snapshot, (50000, 0, true));
    run(
        &mut p,
        &[
            row("deposit", 3, 3, "1"),
            row("withdrawal", 3, 4, "1"),
            row("dispute", 3, 2, ""),
            row("resolve", 3, 1, ""),
            row("chargeback", 3, 2, ""),
        ],
    );
    let c = account(&p, 3);
    assert_eq!((c.available, c.held, c.locked), snapshot);
    assert!(!c.current_transactions[1].in_dispute);
}

#[test]
fn unknown_type_is_ignored() {
    let mut p = Processor::new();
    assert_eq!(p.process_record(&row("Deposit", 1, 1, "1")), Ok(()));
    assert_eq!(p.process_record(&row("refund", 1, 1, "oops")), Ok(()));
    assert!(p.clients().is_empty());
}

#[test]
fn empty_amount_is_zero() {
    let mut p = Processor::new();
    run(&mut p, &[row("deposit", 1, 1, ""), row("withdrawal", 1, 2, "")]);
    let c = account(&p, 1);
    assert_eq!(c.available, 0);
    assert_eq!(c.current_transactions.len(), 1);
}

#[test]
fn bad_amount_is_an_error() {
    let mut p = Processor::new();
    assert_eq!(
        p.process_record(&row("deposit", 1, 1, "abc")),
        Err(ProcessError::InvalidAmount(AmountError::Malformed))
    );
    assert!(p.clients().is_empty());
    assert_eq!(
        p.process_record(&row("withdrawal", 1, 1, "99999999999999999999")),
        Err(ProcessError::InvalidAmount(AmountError::TooLarge))
    );
}

#[test]
fn dispute_ignores_its_amount_field() {
    let mut p = Processor::new();
    run(&mut p, &[row("deposit", 1, 1, "1"), row("dispute", 1, 1, "not a number")]);
    assert_eq!(account(&p, 1).held, 10000);
}

#[test]
fn balance_overflow_is_an_error() {
    let mut p = Processor::new();
    let max = i64::MAX;
    assert_eq!(
        p.apply(Transaction::Deposit { client_id: 1, transaction_id: 1, amount: max }),
        Ok(())
    );
    assert_eq!(
        p.apply(Transaction::Deposit { client_id: 1, transaction_id: 2, amount: 1 }),
        Err(ProcessError::Overflow)
    );
    let c = account(&p, 1);
    assert_eq!(c.available, max);
    assert_eq!(c.current_transactions.len(), 1);
    assert_eq!(c.total(), max as i128);
}

#[test]
fn total_is_available_plus_held() {
    let mut p = Processor::new();
    run(&mut p, &[row("deposit", 1, 1, "1.2345"), row("deposit", 1, 2, "2"), row("dispute", 1, 2, "")]);
    let c = account(&p, 1);
    assert_eq!(c.total(), c.available as i128 + c.held as i128);
    assert_eq!(c.total(), 32345);
}

#[test]
fn transaction_client_id() {
    let t = Transaction::Resolve { client_id: 12, transaction_id: 3 };
    assert_eq!(t.client_id(), 12);
    assert_eq!(
        Transaction::from_row(&row("withdrawal", 5, 6, "0.5")),
        Ok(Some(Transaction::Withdrawal { client_id: 5, transaction_id: 6, amount: 5000 }))
    );
    assert_eq!(Transaction::from_row(&row("other", 5, 6, "")), Ok(None));
}

#[test]
fn parse_amount_values() {
    assert_eq!(parse_amount(""), Ok(0));
    assert_eq!(parse_amount("5"), Ok(50000));
    assert_eq!(parse_amount("5.0"), Ok(50000));
    assert_eq!(parse_amount("5."), Ok(50000));
    assert_eq!(parse_amount(".5"), Ok(5000));
    assert_eq!(parse_amount("1.2345"), Ok(12345));
    assert_eq!(parse_amount("0.0001"), Ok(1));
    assert_eq!(parse_amount("922337203685477.5807"), Ok(i64::MAX));
    assert_eq!(parse_amount("922337203685477.5808"), Err(AmountError::TooLarge));
    assert_eq!(parse_amount("1.23456"), Err(AmountError::Malformed));
    assert_eq!(parse_amount("."), Err(AmountError::Malformed));
    assert_eq!(parse_amount("1.2.3"), Err(AmountError::Malformed));
    assert_eq!(parse_amount("-1"), Err(AmountError::Malformed));
    assert_eq!(parse_amount(" 1"), Err(AmountError::Malformed));
    assert_eq!(parse_amount("1e3"), Err(AmountError::Malformed));
}

#[test]
fn format_amount_values() {
    assert_eq!(text(0), "0.0000");
    assert_eq!(text(50000), "5.0000");
    assert_eq!(text(-50000), "-5.0000");
    assert_eq!(text(12345), "1.2345");
    assert_eq!(text(-1), "-0.0001");
    assert_eq!(text(1234567890), "123456.7890");
    assert_eq!(text(i64::MAX as i128), "922337203685477.5807");
}

#[test]
fn client_open() {
    let c = Client::open(9, 4, 700);
    assert_eq!(c.client_id, 9);
    assert_eq!(c.available, 700);
    assert_eq!(c.held, 0);
    assert!(!c.locked);
    assert_eq!(c.current_transactions.len(), 1);
    assert_eq!(c.find_transaction(4), Some(0));
    assert_eq!(c.find_transaction(5), None);
}
