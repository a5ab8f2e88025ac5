//! What holds of the processor over every ledger, history and transaction.
use crate::balance::{account_or_fresh, all_balanced, all_in_range, AccountModel};
use crate::transaction_manager::{
    lemma_step_keeps_balanced, refused, run, step, TransactionManagerError,
};
use crate::transactions::{Chargeback, Dispute, Resolve, Transaction, Withdrawal};
use vstd::prelude::*;

verus! {

/// The transaction is a deposit or withdrawal that the id or amount check
/// refuses, before the account is looked at.
pub open spec fn fails_id_or_amount(history: Map<u32, Transaction>, t: Transaction) -> bool {
    match t {
        Transaction::Deposit(d) => history.contains_key(d.tx) || d.amount < 0,
        Transaction::Withdrawal(w) => history.contains_key(w.tx) || w.amount < 0,
        _ => false,
    }
}

/// Over any sequence of transactions every account stays balanced.
pub proof fn lemma_run_keeps_balanced(
    accounts: Map<u16, AccountModel>,
    history: Map<u32, Transaction>,
    ts: Seq<Transaction>,
)
    requires
        all_balanced(accounts),
    ensures
        all_balanced(run(accounts, history, ts).0),
    decreases ts.len(),
{
    if ts.len() > 0 {
        let s = step(accounts, history, ts[0]);
        lemma_step_keeps_balanced(accounts, history, ts[0]);
        lemma_run_keeps_balanced(s.accounts, s.history, ts.drop_first());
    }
}

/// On a ledger whose balances are balanced and fit in an `i64`, a
/// withdrawal with a new id and an amount between zero and what is
/// available on an unlocked account goes through.
pub proof fn lemma_covered_withdrawal_succeeds(
    accounts: Map<u16, AccountModel>,
    history: Map<u32, Transaction>,
    w: Withdrawal,
)
    requires
        all_balanced(accounts),
        all_in_range(accounts),
        !history.contains_key(w.tx),
        !account_or_fresh(accounts, w.client).locked,
        0 <= w.amount <= account_or_fresh(accounts, w.client).available,
    ensures
        step(accounts, history, Transaction::Withdrawal(w)).result is Ok,
{
    if accounts.contains_key(w.client) {
        assert(accounts[w.client].in_range() && accounts[w.client].balanced());
    }
}

/// A locked account is never changed: a transaction against its client is
/// refused and changes neither ledger nor history, and is refused as
/// `AccountLocked` unless its id or amount is refused first; a transaction
/// against another client leaves the locked account as it is.
pub proof fn lemma_locked_account_refuses(
    accounts: Map<u16, AccountModel>,
    history: Map<u32, Transaction>,
    t: Transaction,
    c: u16,
)
    requires
        accounts.contains_key(c),
        accounts[c].locked,
    ensures
        step(accounts, history, t).accounts.contains_key(c),
        step(accounts, history, t).accounts[c] == accounts[c],
        t.spec_client() == c ==> {
            &&& step(accounts, history, t).accounts == accounts
            &&& step(accounts, history, t).history == history
            &&& step(accounts, history, t).result is Err
        },
        t.spec_client() == c && !fails_id_or_amount(history, t) ==> step(
            accounts,
            history,
            t,
        ).result == Err::<(), _>(TransactionManagerError::AccountLocked),
{
    if t.spec_client() == c {
        assert(accounts.insert(c, accounts[c]) =~= accounts);
    }
}

/// Over any sequence of transactions, a locked account stays exactly as it
/// is.
pub proof fn lemma_locked_account_is_final(
    accounts: Map<u16, AccountModel>,
    history: Map<u32, Transaction>,
    ts: Seq<Transaction>,
    c: u16,
)
    requires
        accounts.contains_key(c),
        accounts[c].locked,
    ensures
        run(accounts, history, ts).0.contains_key(c),
        run(accounts, history, ts).0[c] == accounts[c],
    decreases ts.len(),
{
    if ts.len() > 0 {
        let s = step(accounts, history, ts[0]);
        lemma_locked_account_refuses(accounts, history, ts[0], c);
        lemma_locked_account_is_final(s.accounts, s.history, ts.drop_first(), c);
    }
}

/// A deposit or withdrawal whose id is already recorded, whatever kind of
/// transaction holds that id, is refused as a duplicate and changes
/// nothing.
pub proof fn lemma_duplicate_id_refused(
    accounts: Map<u16, AccountModel>,
    history: Map<u32, Transaction>,
    t: Transaction,
)
    requires
        t is Deposit || t is Withdrawal,
        history.contains_key(t.spec_tx()),
    ensures
        step(accounts, history, t) == refused(
            accounts,
            history,
            TransactionManagerError::DuplicateTransactionId(t.spec_tx()),
        ),
{
}

/// A chargeback that went through cannot be repeated: the second one is
/// refused as `AccountLocked` and changes nothing.
pub proof fn lemma_second_chargeback_refused(
    accounts: Map<u16, AccountModel>,
    history: Map<u32, Transaction>,
    c: Chargeback,
)
    requires
        step(accounts, history, Transaction::Chargeback(c)).result is Ok,
    ensures
        ({
            let first = step(accounts, history, Transaction::Chargeback(c));
            step(first.accounts, first.history, Transaction::Chargeback(c)) == refused(
                first.accounts,
                first.history,
                TransactionManagerError::AccountLocked,
            )
        }),
{
}

/// A resolve that went through cannot be repeated: the deposit is no
/// longer under dispute, so the second resolve is refused as
/// `TransactionNotDisputed` and changes nothing.
pub proof fn lemma_second_resolve_refused(
    accounts: Map<u16, AccountModel>,
    history: Map<u32, Transaction>,
    r: Resolve,
)
    requires
        step(accounts, history, Transaction::Resolve(r)).result is Ok,
    ensures
        ({
            let first = step(accounts, history, Transaction::Resolve(r));
            step(first.accounts, first.history, Transaction::Resolve(r)) == refused(
                first.accounts,
                first.history,
                TransactionManagerError::TransactionNotDisputed(r.tx),
            )
        }),
{
}

/// A dispute that went through cannot be repeated while it is open: the
/// second one is refused as `TransactionAlreadyDisputed` and changes
/// nothing.
pub proof fn lemma_second_dispute_refused(
    accounts: Map<u16, AccountModel>,
    history: Map<u32, Transaction>,
    d: Dispute,
)
    requires
        step(accounts, history, Transaction::Dispute(d)).result is Ok,
    ensures
        ({
            let first = step(accounts, history, Transaction::Dispute(d));
            step(first.accounts, first.history, Transaction::Dispute(d)) == refused(
                first.accounts,
                first.history,
                TransactionManagerError::TransactionAlreadyDisputed(d.tx),
            )
        }),
{
}

} // verus!
