use std::collections::{BTreeMap, BTreeSet};
use transaction_manager::balance::{ClientBalance, ClientBalanceRegistry};
use transaction_manager::transaction_manager::{TransactionManager, TransactionManagerError};
use transaction_manager::transactions::{
    Chargeback, Deposit, Dispute, Resolve, Transaction, Withdrawal,
};

fn account(available: i64, held: i64, total: i64, locked: bool, disputed: &[u32]) -> ClientBalance {
    ClientBalance::new(available, held, total, locked, disputed.iter().copied().collect::<BTreeSet<u32>>())
}

fn ledger(entries: Vec<(u16, ClientBalance)>) -> ClientBalanceRegistry {
    ClientBalanceRegistry::load_registry(entries.into_iter().collect::<BTreeMap<u16, ClientBalance>>())
}

fn apply_all(tm: &mut TransactionManager, ts: &[Transaction]) {
    for t in ts {
        tm.record_transaction(t).unwrap();
    }
}

fn assert_balanced(r: &ClientBalanceRegistry) {
    for b in r.client_balances.values() {
        assert_eq!(b.total, b.available + b.held);
    }
}

#[test]
fn totals_stay_balanced_through_every_kind() {
    let mut tm = TransactionManager::new();
    let ts = vec![
        Transaction::Deposit(Deposit::new(1, 1, 500_000)),
        Transaction::Deposit(Deposit::new(2, 2, 70_000)),
        Transaction::Withdrawal(Withdrawal::new(1, 3, 120_000)),
        Transaction::Dispute(Dispute::new(1, 1)),
        Transaction::Resolve(Resolve::new(1, 1)),
        Transaction::Dispute(Dispute::new(2, 2)),
        Transaction::Chargeback(Chargeback::new(2, 2)),
        Transaction::Withdrawal(Withdrawal::new(1, 4, 999_999_999)),
    ];
    for t in &ts {
        let _ = tm.record_transaction(t);
        assert_balanced(&tm.retrieve_client_balances());
    }
    assert_eq!(
        tm.retrieve_client_balances(),
        ledger(vec![(1, account(380_000, 0, 380_000, false, &[])), (2, account(0, 0, 0, true, &[]))])
    );
}

#[test]
fn locked_account_refuses_every_kind_and_stays_unchanged() {
    let mut tm = TransactionManager::new();
    apply_all(
        &mut tm,
        &[
            Transaction::Deposit(Deposit::new(1, 1, 320_000)),
            Transaction::Deposit(Deposit::new(1, 2, 10_000)),
            Transaction::Dispute(Dispute::new(1, 1)),
            Transaction::Chargeback(Chargeback::new(1, 1)),
        ],
    );
    let frozen = tm.retrieve_client_balances();
    let attempts = vec![
        Transaction::Deposit(Deposit::new(1, 10, 5)),
        Transaction::Withdrawal(Withdrawal::new(1, 11, 5)),
        Transaction::Dispute(Dispute::new(1, 2)),
        Transaction::Resolve(Resolve::new(1, 2)),
        Transaction::Chargeback(Chargeback::new(1, 2)),
    ];
    for t in &attempts {
        assert_eq!(tm.record_transaction(t), Err(TransactionManagerError::AccountLocked));
        assert_eq!(tm.retrieve_client_balances(), frozen);
    }
    // The id check comes before the lock check.
    assert_eq!(
        tm.record_transaction(&Transaction::Deposit(Deposit::new(1, 2, 5))),
        Err(TransactionManagerError::DuplicateTransactionId(2))
    );
    assert_eq!(tm.retrieve_client_balances(), frozen);
}

#[test]
fn duplicate_id_refused_whatever_kind_recorded_it() {
    let mut tm = TransactionManager::new();
    apply_all(
        &mut tm,
        &[
            Transaction::Deposit(Deposit::new(1, 1, 100)),
            Transaction::Withdrawal(Withdrawal::new(1, 2, 50)),
        ],
    );
    let before = tm.retrieve_client_balances();
    assert_eq!(
        tm.record_transaction(&Transaction::Deposit(Deposit::new(4, 2, 10))),
        Err(TransactionManagerError::DuplicateTransactionId(2))
    );
    assert_eq!(
        tm.record_transaction(&Transaction::Withdrawal(Withdrawal::new(1, 1, 10))),
        Err(TransactionManagerError::DuplicateTransactionId(1))
    );
    assert_eq!(tm.retrieve_client_balances(), before);
}

#[test]
fn second_chargeback_is_refused() {
    let mut tm = TransactionManager::new();
    apply_all(
        &mut tm,
        &[
            Transaction::Deposit(Deposit::new(1, 1, 320_000)),
            Transaction::Dispute(Dispute::new(1, 1)),
            Transaction::Chargeback(Chargeback::new(1, 1)),
        ],
    );
    let after_first = tm.retrieve_client_balances();
    assert_eq!(
        tm.record_transaction(&Transaction::Chargeback(Chargeback::new(1, 1))),
        Err(TransactionManagerError::AccountLocked)
    );
    assert_eq!(tm.retrieve_client_balances(), after_first);
}

#[test]
fn second_resolve_is_refused() {
    let mut tm = TransactionManager::new();
    apply_all(
        &mut tm,
        &[
            Transaction::Deposit(Deposit::new(1, 1, 320_000)),
            Transaction::Dispute(Dispute::new(1, 1)),
            Transaction::Resolve(Resolve::new(1, 1)),
        ],
    );
    let after_first = tm.retrieve_client_balances();
    assert_eq!(after_first, ledger(vec![(1, account(320_000, 0, 320_000, false, &[]))]));
    assert_eq!(
        tm.record_transaction(&Transaction::Resolve(Resolve::new(1, 1))),
        Err(TransactionManagerError::TransactionNotDisputed(1))
    );
    assert_eq!(tm.retrieve_client_balances(), after_first);
}

#[test]
fn resolve_or_chargeback_of_an_undisputed_deposit_is_refused() {
    let mut tm = TransactionManager::new();
    apply_all(&mut tm, &[Transaction::Deposit(Deposit::new(1, 1, 320_000))]);
    let before = tm.retrieve_client_balances();
    assert_eq!(
        tm.record_transaction(&Transaction::Resolve(Resolve::new(1, 1))),
        Err(TransactionManagerError::TransactionNotDisputed(1))
    );
    assert_eq!(
        tm.record_transaction(&Transaction::Chargeback(Chargeback::new(1, 1))),
        Err(TransactionManagerError::TransactionNotDisputed(1))
    );
    // Disputed on another client's account only: not under dispute here.
    tm.record_transaction(&Transaction::Dispute(Dispute::new(2, 1))).unwrap();
    assert_eq!(
        tm.record_transaction(&Transaction::Resolve(Resolve::new(1, 1))),
        Err(TransactionManagerError::TransactionNotDisputed(1))
    );
    assert_eq!(tm.retrieve_client_balances().client_balances.get(&1), before.client_balances.get(&1));
}

#[test]
fn second_dispute_is_refused() {
    let mut tm = TransactionManager::new();
    apply_all(
        &mut tm,
        &[
            Transaction::Deposit(Deposit::new(1, 1, 320_000)),
            Transaction::Dispute(Dispute::new(1, 1)),
        ],
    );
    let after_first = tm.retrieve_client_balances();
    assert_eq!(
        tm.record_transaction(&Transaction::Dispute(Dispute::new(1, 1))),
        Err(TransactionManagerError::TransactionAlreadyDisputed(1))
    );
    assert_eq!(tm.retrieve_client_balances(), after_first);
    // Once resolved, the deposit can be disputed again.
    apply_all(
        &mut tm,
        &[Transaction::Resolve(Resolve::new(1, 1)), Transaction::Dispute(Dispute::new(1, 1))],
    );
    assert_eq!(tm.retrieve_client_balances(), after_first);
}

#[test]
fn snapshot_reloads_to_the_live_ledger() {
    let mut tm = TransactionManager::new();
    apply_all(
        &mut tm,
        &[
            Transaction::Deposit(Deposit::new(3, 1, 15_000)),
            Transaction::Deposit(Deposit::new(1, 2, 320_000)),
            Transaction::Dispute(Dispute::new(1, 2)),
        ],
    );
    let snapshot = tm.retrieve_client_balances();
    let reloaded = ClientBalanceRegistry::load_registry(snapshot.client_balances.clone());
    assert_eq!(reloaded, snapshot);
    assert_eq!(reloaded, tm.retrieve_client_balances());
    assert_eq!(
        reloaded,
        ledger(vec![(1, account(0, 320_000, 320_000, false, &[2])), (3, account(15_000, 0, 15_000, false, &[]))])
    );
}

#[test]
fn dispute_of_a_withdrawal_or_unknown_id_is_refused() {
    let mut tm = TransactionManager::new();
    apply_all(
        &mut tm,
        &[
            Transaction::Deposit(Deposit::new(1, 1, 100)),
            Transaction::Withdrawal(Withdrawal::new(1, 2, 40)),
        ],
    );
    let before = tm.retrieve_client_balances();
    assert_eq!(
        tm.record_transaction(&Transaction::Dispute(Dispute::new(1, 2))),
        Err(TransactionManagerError::DisputedTransactionDoesNotExist(2))
    );
    assert_eq!(
        tm.record_transaction(&Transaction::Resolve(Resolve::new(1, 9))),
        Err(TransactionManagerError::DisputedTransactionDoesNotExist(9))
    );
    assert_eq!(
        tm.record_transaction(&Transaction::Chargeback(Chargeback::new(5, 9))),
        Err(TransactionManagerError::DisputedTransactionDoesNotExist(9))
    );
    assert_eq!(tm.retrieve_client_balances(), before);
}

#[test]
fn insufficient_funds_reports_the_shortfall() {
    let mut tm = TransactionManager::new();
    apply_all(&mut tm, &[Transaction::Deposit(Deposit::new(1, 1, 50_000))]);
    assert_eq!(
        tm.record_transaction(&Transaction::Withdrawal(Withdrawal::new(1, 2, 75_000))),
        Err(TransactionManagerError::InsufficientFunds(25_000))
    );
    // Withdrawing exactly what is available empties the account.
    tm.record_transaction(&Transaction::Withdrawal(Withdrawal::new(1, 3, 50_000))).unwrap();
    assert_eq!(tm.retrieve_client_balances(), ledger(vec![(1, account(0, 0, 0, false, &[]))]));
}

#[test]
fn balance_overflow_is_refused_without_change() {
    let mut tm = TransactionManager::new();
    apply_all(&mut tm, &[Transaction::Deposit(Deposit::new(1, 1, i64::MAX))]);
    assert_eq!(
        tm.record_transaction(&Transaction::Deposit(Deposit::new(1, 2, 1))),
        Err(TransactionManagerError::BalanceOverflow)
    );
    assert_eq!(
        tm.retrieve_client_balances(),
        ledger(vec![(1, account(i64::MAX, 0, i64::MAX, false, &[]))])
    );
}

#[test]
fn shortfall_is_capped_at_the_largest_amount() {
    let mut tm = TransactionManager::new();
    apply_all(
        &mut tm,
        &[
            Transaction::Deposit(Deposit::new(1, 1, i64::MAX)),
            Transaction::Withdrawal(Withdrawal::new(1, 2, i64::MAX)),
            Transaction::Dispute(Dispute::new(1, 1)),
        ],
    );
    assert_eq!(
        tm.record_transaction(&Transaction::Withdrawal(Withdrawal::new(1, 3, i64::MAX))),
        Err(TransactionManagerError::InsufficientFunds(i64::MAX))
    );
}

#[test]
fn error_messages_name_the_refusal() {
    assert_eq!(TransactionManagerError::InsufficientFunds(2_000_000).message(), "InsufficientFunds(200)");
    assert_eq!(TransactionManagerError::InsufficientFunds(-15_000).message(), "InsufficientFunds(-1.5)");
    assert_eq!(TransactionManagerError::AccountLocked.message(), "AccountLocked");
    assert_eq!(TransactionManagerError::DuplicateTransactionId(42).message(), "DuplicateTransactionId(42)");
    assert_eq!(
        TransactionManagerError::DisputedTransactionDoesNotExist(7).message(),
        "DisputedTransactionDoesNotExist(7)"
    );
    assert_eq!(
        TransactionManagerError::TransactionAlreadyDisputed(3).message(),
        "TransactionAlreadyDisputed(3)"
    );
    assert_eq!(TransactionManagerError::TransactionNotDisputed(12).message(), "TransactionNotDisputed(12)");
    assert_eq!(TransactionManagerError::NegativeAmountNotAllowed.message(), "NegativeAmountNotAllowed");
    assert_eq!(TransactionManagerError::BalanceOverflow.message(), "BalanceOverflow");
}

#[test]
fn export_lists_clients_in_order_with_shortest_decimals() {
    let mut tm = TransactionManager::new();
    apply_all(
        &mut tm,
        &[
            Transaction::Deposit(Deposit::new(2, 3, 20_000)),
            Transaction::Deposit(Deposit::new(1, 1, 320_000)),
            Transaction::Withdrawal(Withdrawal::new(2, 4, 10_000)),
            Transaction::Withdrawal(Withdrawal::new(1, 2, 200_005)),
            Transaction::Deposit(Deposit::new(10, 5, 12_500)),
            Transaction::Dispute(Dispute::new(10, 5)),
            Transaction::Chargeback(Chargeback::new(10, 5)),
        ],
    );
    assert_eq!(
        tm.retrieve_client_balances().to_csv(),
        "client,available,held,total,locked\n\
         1,11.9995,0,11.9995,false\n\
         2,1,0,1,false\n\
         10,0,0,0,true\n"
    );
}

#[test]
fn export_of_an_empty_ledger_is_the_header() {
    assert_eq!(ClientBalanceRegistry::new().to_csv(), "client,available,held,total,locked\n");
}

#[test]
fn export_writes_negative_and_extreme_amounts() {
    let r = ledger(vec![(65535, account(-320_000, i64::MIN, i64::MAX, false, &[]))]);
    assert_eq!(
        r.to_csv(),
        "client,available,held,total,locked\n\
         65535,-32,-922337203685477.5808,922337203685477.5807,false\n"
    );
}
