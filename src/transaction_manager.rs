//! The transaction processor: applies one transaction at a time to the
//! ledger of accounts and the history of accepted transactions.
use crate::amount::{amount_text, decimal_text, fits_i64, write_amount, write_decimal};
use crate::balance::{
    account_or_fresh, all_balanced, all_in_range, lemma_ledger_in_range, AccountModel,
    ClientBalance, ClientBalanceRegistry,
};
use crate::history::{deposit_amount, TransactionHistory};
use crate::transactions::{Chargeback, Deposit, Dispute, Resolve, Transaction, Withdrawal};
use vstd::prelude::*;
use vstd::string::StringExecFns;

verus! {

/// Why a transaction was refused.
#[derive(Clone, Copy, Debug, PartialEq, Eq, Structural)]
pub enum TransactionManagerError {
    /// The withdrawal asks for more than is available; carries the missing
    /// amount in ten-thousandths (capped at `i64::MAX`).
    InsufficientFunds(i64),
    /// The account was frozen by a chargeback.
    AccountLocked,
    /// A deposit or withdrawal reuses the id of an accepted one.
    DuplicateTransactionId(u32),
    /// A dispute, resolve or chargeback names no recorded deposit.
    DisputedTransactionDoesNotExist(u32),
    /// A dispute names a deposit that is already under dispute.
    TransactionAlreadyDisputed(u32),
    /// A resolve or chargeback names a deposit that is not under dispute.
    TransactionNotDisputed(u32),
    /// A deposit or withdrawal with a negative amount.
    NegativeAmountNotAllowed,
    /// A balance would leave the range that the ledger can count.
    BalanceOverflow,
}

/// The text that names a refusal, with its amount or id in parentheses
/// where it carries one (`"DuplicateTransactionId(7)"`).
pub open spec fn error_text(e: TransactionManagerError) -> Seq<char> {
    match e {
        TransactionManagerError::InsufficientFunds(a) => "InsufficientFunds("@ + amount_text(
            a as int,
        ) + ")"@,
        TransactionManagerError::AccountLocked => "AccountLocked"@,
        TransactionManagerError::DuplicateTransactionId(tx) => "DuplicateTransactionId("@
            + decimal_text(tx as nat) + ")"@,
        TransactionManagerError::DisputedTransactionDoesNotExist(tx) => "DisputedTransactionDoesNotExist("@
            + decimal_text(tx as nat) + ")"@,
        TransactionManagerError::TransactionAlreadyDisputed(tx) => "TransactionAlreadyDisputed("@
            + decimal_text(tx as nat) + ")"@,
        TransactionManagerError::TransactionNotDisputed(tx) => "TransactionNotDisputed("@
            + decimal_text(tx as nat) + ")"@,
        TransactionManagerError::NegativeAmountNotAllowed => "NegativeAmountNotAllowed"@,
        TransactionManagerError::BalanceOverflow => "BalanceOverflow"@,
    }
}

impl TransactionManagerError {
    /// The text that names this refusal (see `error_text`).
    pub fn message(&self) -> (r: String)
        ensures
            r@ == error_text(*self),
    {
        let mut out = String::new();
        match self {
            TransactionManagerError::InsufficientFunds(a) => {
                out.append("InsufficientFunds(");
                write_amount(&mut out, *a);
                out.append(")");
            },
            TransactionManagerError::AccountLocked => {
                out.append("AccountLocked");
            },
            TransactionManagerError::DuplicateTransactionId(tx) => {
                out.append("DuplicateTransactionId(");
                write_decimal(&mut out, *tx as u64);
                out.append(")");
            },
            TransactionManagerError::DisputedTransactionDoesNotExist(tx) => {
                out.append("DisputedTransactionDoesNotExist(");
                write_decimal(&mut out, *tx as u64);
                out.append(")");
            },
            TransactionManagerError::TransactionAlreadyDisputed(tx) => {
                out.append("TransactionAlreadyDisputed(");
                write_decimal(&mut out, *tx as u64);
                out.append(")");
            },
            TransactionManagerError::TransactionNotDisputed(tx) => {
                out.append("TransactionNotDisputed(");
                write_decimal(&mut out, *tx as u64);
                out.append(")");
            },
            TransactionManagerError::NegativeAmountNotAllowed => {
                out.append("NegativeAmountNotAllowed");
            },
            TransactionManagerError::BalanceOverflow => {
                out.append("BalanceOverflow");
            },
        }
        assert(out@ =~= error_text(*self));
        out
    }
}

/// The outcome of one transaction: the ledger and history after it, and
/// what the caller is told.
pub struct Step {
    pub accounts: Map<u16, AccountModel>,
    pub history: Map<u32, Transaction>,
    pub result: Result<(), TransactionManagerError>,
}

/// A refusal that changes nothing.
pub open spec fn refused(
    accounts: Map<u16, AccountModel>,
    history: Map<u32, Transaction>,
    e: TransactionManagerError,
) -> Step {
    Step { accounts, history, result: Err(e) }
}

/// The account with new balances; lock and disputes kept.
pub open spec fn with_balances(a: AccountModel, available: int, held: int, total: int) -> AccountModel {
    AccountModel { available, held, total, locked: a.locked, disputed: a.disputed }
}

/// What is missing for a withdrawal, capped at the largest `i64`.
pub open spec fn shortfall(amount: int, available: int) -> int {
    if amount - available > i64::MAX {
        i64::MAX as int
    } else {
        amount - available
    }
}

/// A deposit: refused for a known id, a negative amount, a locked account
/// or an overflow; else credited to `available` and `total` and recorded.
/// Past the id and amount checks the client's account exists afterwards,
/// even where the deposit is then refused.
pub open spec fn deposit_step(
    accounts: Map<u16, AccountModel>,
    history: Map<u32, Transaction>,
    d: Deposit,
) -> Step {
    if history.contains_key(d.tx) {
        refused(accounts, history, TransactionManagerError::DuplicateTransactionId(d.tx))
    } else if d.amount < 0 {
        refused(accounts, history, TransactionManagerError::NegativeAmountNotAllowed)
    } else {
        let a = account_or_fresh(accounts, d.client);
        let opened = accounts.insert(d.client, a);
        if a.locked {
            refused(opened, history, TransactionManagerError::AccountLocked)
        } else if !fits_i64(a.available + d.amount) || !fits_i64(a.total + d.amount) {
            refused(opened, history, TransactionManagerError::BalanceOverflow)
        } else {
            Step {
                accounts: accounts.insert(
                    d.client,
                    with_balances(a, a.available + d.amount, a.held, a.total + d.amount),
                ),
                history: history.insert(d.tx, Transaction::Deposit(d)),
                result: Ok(()),
            }
        }
    }
}

/// A withdrawal: refused for a known id, a negative amount, a locked
/// account, too little available or an overflow; else debited from
/// `available` and `total` and recorded. Past the id and amount checks the
/// client's account exists afterwards, even where the withdrawal is then
/// refused.
pub open spec fn withdrawal_step(
    accounts: Map<u16, AccountModel>,
    history: Map<u32, Transaction>,
    w: Withdrawal,
) -> Step {
    if history.contains_key(w.tx) {
        refused(accounts, history, TransactionManagerError::DuplicateTransactionId(w.tx))
    } else if w.amount < 0 {
        refused(accounts, history, TransactionManagerError::NegativeAmountNotAllowed)
    } else {
        let a = account_or_fresh(accounts, w.client);
        let opened = accounts.insert(w.client, a);
        if a.locked {
            refused(opened, history, TransactionManagerError::AccountLocked)
        } else if w.amount > a.available {
            refused(
                opened,
                history,
                TransactionManagerError::InsufficientFunds(shortfall(w.amount as int, a.available) as i64),
            )
        } else if !fits_i64(a.total - w.amount) {
            refused(opened, history, TransactionManagerError::BalanceOverflow)
        } else {
            Step {
                accounts: accounts.insert(
                    w.client,
                    with_balances(a, a.available - w.amount, a.held, a.total - w.amount),
                ),
                history: history.insert(w.tx, Transaction::Withdrawal(w)),
                result: Ok(()),
            }
        }
    }
}

/// A dispute: refused for a locked account, an id that names no deposit,
/// a deposit already under dispute on this account, or an overflow; else the deposit's amount moves from `available` to
/// `held` and the id joins the account's disputes.
///
/// Only deposits can be disputed: the id of a withdrawal is refused as an
/// unknown one is. The amount moves on the account of the dispute's client,
/// as do those of resolves and chargebacks. A refused dispute, resolve or
/// chargeback opens no account.
pub open spec fn dispute_step(
    accounts: Map<u16, AccountModel>,
    history: Map<u32, Transaction>,
    d: Dispute,
) -> Step {
    let a = account_or_fresh(accounts, d.client);
    if a.locked {
        refused(accounts, history, TransactionManagerError::AccountLocked)
    } else if deposit_amount(history, d.tx) is None {
        refused(accounts, history, TransactionManagerError::DisputedTransactionDoesNotExist(d.tx))
    } else if a.disputed.contains(d.tx) {
        refused(accounts, history, TransactionManagerError::TransactionAlreadyDisputed(d.tx))
    } else {
        let x = deposit_amount(history, d.tx)->Some_0;
        if !fits_i64(a.available - x) || !fits_i64(a.held + x) {
            refused(accounts, history, TransactionManagerError::BalanceOverflow)
        } else {
            Step {
                accounts: accounts.insert(
                    d.client,
                    AccountModel {
                        available: a.available - x,
                        held: a.held + x,
                        total: a.total,
                        locked: a.locked,
                        disputed: a.disputed.insert(d.tx),
                    },
                ),
                history,
                result: Ok(()),
            }
        }
    }
}

/// A resolve: refused for a locked account, an id that names no deposit, a
/// deposit that is not under dispute on this account, or an overflow; else
/// the deposit's amount moves back from `held` to `available` and the id
/// leaves the disputes. The disputes decide: a deposit can be released only
/// while it is held, so a second resolve is refused and changes nothing.
pub open spec fn resolve_step(
    accounts: Map<u16, AccountModel>,
    history: Map<u32, Transaction>,
    r: Resolve,
) -> Step {
    let a = account_or_fresh(accounts, r.client);
    if a.locked {
        refused(accounts, history, TransactionManagerError::AccountLocked)
    } else if deposit_amount(history, r.tx) is None {
        refused(accounts, history, TransactionManagerError::DisputedTransactionDoesNotExist(r.tx))
    } else if !a.disputed.contains(r.tx) {
        refused(accounts, history, TransactionManagerError::TransactionNotDisputed(r.tx))
    } else {
        let x = deposit_amount(history, r.tx)->Some_0;
        if !fits_i64(a.available + x) || !fits_i64(a.held - x) {
            refused(accounts, history, TransactionManagerError::BalanceOverflow)
        } else {
            Step {
                accounts: accounts.insert(
                    r.client,
                    AccountModel {
                        available: a.available + x,
                        held: a.held - x,
                        total: a.total,
                        locked: a.locked,
                        disputed: a.disputed.remove(r.tx),
                    },
                ),
                history,
                result: Ok(()),
            }
        }
    }
}

/// A chargeback: refused as a resolve is; else the deposit's amount leaves
/// `held` and `total`, the id leaves the disputes and the account is
/// locked.
pub open spec fn chargeback_step(
    accounts: Map<u16, AccountModel>,
    history: Map<u32, Transaction>,
    c: Chargeback,
) -> Step {
    let a = account_or_fresh(accounts, c.client);
    if a.locked {
        refused(accounts, history, TransactionManagerError::AccountLocked)
    } else if deposit_amount(history, c.tx) is None {
        refused(accounts, history, TransactionManagerError::DisputedTransactionDoesNotExist(c.tx))
    } else if !a.disputed.contains(c.tx) {
        refused(accounts, history, TransactionManagerError::TransactionNotDisputed(c.tx))
    } else {
        let x = deposit_amount(history, c.tx)->Some_0;
        if !fits_i64(a.held - x) || !fits_i64(a.total - x) {
            refused(accounts, history, TransactionManagerError::BalanceOverflow)
        } else {
            Step {
                accounts: accounts.insert(
                    c.client,
                    AccountModel {
                        available: a.available,
                        held: a.held - x,
                        total: a.total - x,
                        locked: true,
                        disputed: a.disputed.remove(c.tx),
                    },
                ),
                history,
                result: Ok(()),
            }
        }
    }
}

/// What one transaction does to the ledger and the history.
pub open spec fn step(
    accounts: Map<u16, AccountModel>,
    history: Map<u32, Transaction>,
    t: Transaction,
) -> Step {
    match t {
        Transaction::Deposit(d) => deposit_step(accounts, history, d),
        Transaction::Withdrawal(w) => withdrawal_step(accounts, history, w),
        Transaction::Dispute(d) => dispute_step(accounts, history, d),
        Transaction::Resolve(r) => resolve_step(accounts, history, r),
        Transaction::Chargeback(c) => chargeback_step(accounts, history, c),
    }
}

/// Applies transaction after transaction, from the first; the ledger and
/// history after the whole sequence.
pub open spec fn run(
    accounts: Map<u16, AccountModel>,
    history: Map<u32, Transaction>,
    ts: Seq<Transaction>,
) -> (Map<u16, AccountModel>, Map<u32, Transaction>)
    decreases ts.len(),
{
    if ts.len() == 0 {
        (accounts, history)
    } else {
        let s = step(accounts, history, ts[0]);
        run(s.accounts, s.history, ts.drop_first())
    }
}

/// Processes transactions against a ledger of client accounts.
pub struct TransactionManager {
    balances: ClientBalanceRegistry,
    history: TransactionHistory,
}

impl TransactionManager {
    /// The ledger: each client's account.
    pub closed spec fn accounts(&self) -> Map<u16, AccountModel> {
        self.balances@
    }

    /// The accepted deposits and withdrawals, by id.
    pub closed spec fn recorded(&self) -> Map<u32, Transaction> {
        self.history@
    }

    /// Every account is balanced, and its balances fit in an `i64`.
    pub open spec fn wf(&self) -> bool {
        &&& all_balanced(self.accounts())
        &&& all_in_range(self.accounts())
    }

    /// The manager after `s`, and `r` the result that `s` gives.
    pub open spec fn follows(&self, s: Step, r: Result<(), TransactionManagerError>) -> bool {
        &&& self.accounts() == s.accounts
        &&& self.recorded() == s.history
        &&& r == s.result
    }

    /// A manager with no accounts and no history.
    pub fn new() -> (r: Self)
        ensures
            r.wf(),
            r.accounts() == Map::<u16, AccountModel>::empty(),
            r.recorded() == Map::<u32, Transaction>::empty(),
    {
        let r = Self { balances: ClientBalanceRegistry::new(), history: TransactionHistory::new() };
        proof { lemma_ledger_in_range(r.balances.client_balances@); }
        r
    }

    /// Applies one transaction: the ledger and history become what `step`
    /// says, and the caller gets its verdict. A refused transaction changes
    /// nothing, but that a deposit or withdrawal past the id and amount
    /// checks opens the client's account.
    pub fn record_transaction(&mut self, t: &Transaction) -> (r: Result<(), TransactionManagerError>)
        requires
            old(self).wf(),
        ensures
            final(self).wf(),
            final(self).follows(step(old(self).accounts(), old(self).recorded(), *t), r),
    {
        proof { lemma_step_keeps_balanced(self.accounts(), self.recorded(), *t); }
        let r = match t {
            Transaction::Withdrawal(w) => self.handle_withdrawal(w),
            Transaction::Deposit(d) => self.handle_deposit(d),
            Transaction::Chargeback(c) => self.handle_chargeback(c),
            Transaction::Resolve(r) => self.handle_resolve(r),
            Transaction::Dispute(d) => self.handle_dispute(d),
        };
        proof { lemma_ledger_in_range(self.balances.client_balances@); }
        r
    }

    /// A copy of every client's account, independent of the manager.
    pub fn retrieve_client_balances(&self) -> (r: ClientBalanceRegistry)
        requires
            self.wf(),
        ensures
            r@ == self.accounts(),
            all_balanced(r@),
    {
        ClientBalanceRegistry::load_registry(self.balances.client_balances.clone())
    }

    fn duped_transaction(&self, tx: u32) -> (r: Result<(), TransactionManagerError>)
        ensures
            r == if self.recorded().contains_key(tx) {
                Err(TransactionManagerError::DuplicateTransactionId(tx))
            } else {
                Ok(())
            },
    {
        if self.history.contains(tx) {
            return Err(TransactionManagerError::DuplicateTransactionId(tx));
        }
        Ok(())
    }

    fn reject_negative_amount(amount: i64) -> (r: Result<(), TransactionManagerError>)
        ensures
            r == if amount < 0 {
                Err(TransactionManagerError::NegativeAmountNotAllowed)
            } else {
                Ok(())
            },
    {
        if amount < 0 {
            return Err(TransactionManagerError::NegativeAmountNotAllowed);
        }
        Ok(())
    }

    fn handle_deposit(&mut self, d: &Deposit) -> (r: Result<(), TransactionManagerError>)
        ensures
            final(self).follows(deposit_step(old(self).accounts(), old(self).recorded(), *d), r),
    {
        if let Err(e) = self.duped_transaction(d.tx) {
            return Err(e);
        }
        if let Err(e) = Self::reject_negative_amount(d.amount) {
            return Err(e);
        }
        let ghost a = account_or_fresh(self.accounts(), d.client);
        let mut account = self.balances.take_account(d.client);
        if account.locked {
            self.balances.put_account(d.client, account);
            proof { lemma_reinsert(old(self).accounts(), d.client, a); }
            return Err(TransactionManagerError::AccountLocked);
        }
        let available = account.available.checked_add(d.amount);
        let total = account.total.checked_add(d.amount);
        match (available, total) {
            (Some(available), Some(total)) => {
                account.available = available;
                account.total = total;
                self.balances.put_account(d.client, account);
                self.history.record(d.tx, Transaction::Deposit(*d));
                proof { lemma_reinsert(old(self).accounts(), d.client, account@); }
                Ok(())
            },
            _ => {
                self.balances.put_account(d.client, account);
                proof { lemma_reinsert(old(self).accounts(), d.client, a); }
                Err(TransactionManagerError::BalanceOverflow)
            },
        }
    }

    fn handle_withdrawal(&mut self, w: &Withdrawal) -> (r: Result<(), TransactionManagerError>)
        ensures
            final(self).follows(withdrawal_step(old(self).accounts(), old(self).recorded(), *w), r),
    {
        if let Err(e) = self.duped_transaction(w.tx) {
            return Err(e);
        }
        if let Err(e) = Self::reject_negative_amount(w.amount) {
            return Err(e);
        }
        let ghost a = account_or_fresh(self.accounts(), w.client);
        let mut account = self.balances.take_account(w.client);
        if account.locked {
            self.balances.put_account(w.client, account);
            proof { lemma_reinsert(old(self).accounts(), w.client, a); }
            return Err(TransactionManagerError::AccountLocked);
        }
        if w.amount > account.available {
            let missing: i128 = w.amount as i128 - account.available as i128;
            let missing: i64 = if missing > i64::MAX as i128 {
                i64::MAX
            } else {
                missing as i64
            };
            self.balances.put_account(w.client, account);
            proof { lemma_reinsert(old(self).accounts(), w.client, a); }
            return Err(TransactionManagerError::InsufficientFunds(missing));
        }
        match account.total.checked_sub(w.amount) {
            Some(total) => {
                account.available = account.available - w.amount;
                account.total = total;
                self.balances.put_account(w.client, account);
                self.history.record(w.tx, Transaction::Withdrawal(*w));
                proof { lemma_reinsert(old(self).accounts(), w.client, account@); }
                Ok(())
            },
            None => {
                self.balances.put_account(w.client, account);
                proof { lemma_reinsert(old(self).accounts(), w.client, a); }
                Err(TransactionManagerError::BalanceOverflow)
            },
        }
    }

    fn handle_dispute(&mut self, d: &Dispute) -> (r: Result<(), TransactionManagerError>)
        ensures
            final(self).follows(dispute_step(old(self).accounts(), old(self).recorded(), *d), r),
    {
        if self.balances.is_locked(d.client) {
            return Err(TransactionManagerError::AccountLocked);
        }
        let amount = match self.history.deposit_amount(d.tx) {
            Some(amount) => amount,
            None => {
                return Err(TransactionManagerError::DisputedTransactionDoesNotExist(d.tx));
            },
        };
        if self.balances.is_disputed(d.client, d.tx) {
            return Err(TransactionManagerError::TransactionAlreadyDisputed(d.tx));
        }
        let existed = self.balances.has_account(d.client);
        let mut account = self.balances.take_account(d.client);
        let available = account.available.checked_sub(amount);
        let held = account.held.checked_add(amount);
        match (available, held) {
            (Some(available), Some(held)) => {
                account.available = available;
                account.held = held;
                account.disputed_transactions.insert(d.tx);
                self.balances.put_account(d.client, account);
                proof { lemma_reinsert(old(self).accounts(), d.client, account@); }
                Ok(())
            },
            _ => {
                if existed {
                    self.balances.put_account(d.client, account);
                    proof { lemma_put_back(old(self).accounts(), d.client); }
                } else {
                    assert(self.accounts() =~= old(self).accounts());
                }
                Err(TransactionManagerError::BalanceOverflow)
            },
        }
    }

    fn handle_resolve(&mut self, r: &Resolve) -> (res: Result<(), TransactionManagerError>)
        ensures
            final(self).follows(resolve_step(old(self).accounts(), old(self).recorded(), *r), res),
    {
        if self.balances.is_locked(r.client) {
            return Err(TransactionManagerError::AccountLocked);
        }
        let amount = match self.history.deposit_amount(r.tx) {
            Some(amount) => amount,
            None => {
                return Err(TransactionManagerError::DisputedTransactionDoesNotExist(r.tx));
            },
        };
        if !self.balances.is_disputed(r.client, r.tx) {
            return Err(TransactionManagerError::TransactionNotDisputed(r.tx));
        }
        let existed = self.balances.has_account(r.client);
        let mut account = self.balances.take_account(r.client);
        let available = account.available.checked_add(amount);
        let held = account.held.checked_sub(amount);
        match (available, held) {
            (Some(available), Some(held)) => {
                account.available = available;
                account.held = held;
                account.disputed_transactions.remove(&r.tx);
                self.balances.put_account(r.client, account);
                proof { lemma_reinsert(old(self).accounts(), r.client, account@); }
                Ok(())
            },
            _ => {
                if existed {
                    self.balances.put_account(r.client, account);
                    proof { lemma_put_back(old(self).accounts(), r.client); }
                } else {
                    assert(self.accounts() =~= old(self).accounts());
                }
                Err(TransactionManagerError::BalanceOverflow)
            },
        }
    }

    fn handle_chargeback(&mut self, c: &Chargeback) -> (r: Result<(), TransactionManagerError>)
        ensures
            final(self).follows(chargeback_step(old(self).accounts(), old(self).recorded(), *c), r),
    {
        if self.balances.is_locked(c.client) {
            return Err(TransactionManagerError::AccountLocked);
        }
        let amount = match self.history.deposit_amount(c.tx) {
            Some(amount) => amount,
            None => {
                return Err(TransactionManagerError::DisputedTransactionDoesNotExist(c.tx));
            },
        };
        if !self.balances.is_disputed(c.client, c.tx) {
            return Err(TransactionManagerError::TransactionNotDisputed(c.tx));
        }
        let existed = self.balances.has_account(c.client);
        let mut account = self.balances.take_account(c.client);
        let held = account.held.checked_sub(amount);
        let total = account.total.checked_sub(amount);
        match (held, total) {
            (Some(held), Some(total)) => {
                account.held = held;
                account.total = total;
                account.disputed_transactions.remove(&c.tx);
                account.locked = true;
                self.balances.put_account(c.client, account);
                proof { lemma_reinsert(old(self).accounts(), c.client, account@); }
                Ok(())
            },
            _ => {
                if existed {
                    self.balances.put_account(c.client, account);
                    proof { lemma_put_back(old(self).accounts(), c.client); }
                } else {
                    assert(self.accounts() =~= old(self).accounts());
                }
                Err(TransactionManagerError::BalanceOverflow)
            },
        }
    }
}

impl Default for TransactionManager {
    fn default() -> (r: Self)
        ensures
            r.wf(),
            r.accounts() == Map::<u16, AccountModel>::empty(),
            r.recorded() == Map::<u32, Transaction>::empty(),
    {
        Self::new()
    }
}

/// A transaction keeps every account balanced: the total stays what is
/// available plus what is held.
pub proof fn lemma_step_keeps_balanced(
    accounts: Map<u16, AccountModel>,
    history: Map<u32, Transaction>,
    t: Transaction,
)
    requires
        all_balanced(accounts),
    ensures
        all_balanced(step(accounts, history, t).accounts),
{
    let c = t.spec_client();
    assert(account_or_fresh(accounts, c).balanced());
}

/// Putting back an account that was taken out of a ledger holding it
/// leaves the ledger as it was.
proof fn lemma_put_back(m: Map<u16, AccountModel>, k: u16)
    requires
        m.contains_key(k),
    ensures
        m.remove(k).insert(k, m[k]) == m,
{
    assert(m.remove(k).insert(k, m[k]) =~= m);
}

/// Taking an entry out and putting a value back is inserting that value.
proof fn lemma_reinsert(m: Map<u16, AccountModel>, k: u16, v: AccountModel)
    ensures
        m.remove(k).insert(k, v) == m.insert(k, v),
{
    assert(m.remove(k).insert(k, v) =~= m.insert(k, v));
}

} // verus!
