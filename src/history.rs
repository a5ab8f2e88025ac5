//! The record of accepted deposits and withdrawals, by transaction id.
use crate::transactions::Transaction;
use std::collections::HashMap;
use vstd::prelude::*;

verus! {

/// The amount of the deposit recorded under `tx`, if `tx` names a deposit.
pub open spec fn deposit_amount(history: Map<u32, Transaction>, tx: u32) -> Option<int> {
    if history.contains_key(tx) {
        match history[tx] {
            Transaction::Deposit(d) => Some(d.amount as int),
            _ => None,
        }
    } else {
        None
    }
}

/// Accepted deposits and withdrawals, each under its own transaction id.
#[derive(Debug)]
pub struct TransactionHistory {
    history: HashMap<u32, Transaction>,
}

impl View for TransactionHistory {
    type V = Map<u32, Transaction>;

    closed spec fn view(&self) -> Map<u32, Transaction> {
        self.history@
    }
}

impl TransactionHistory {
    /// An empty history.
    pub fn new() -> (r: Self)
        ensures
            r@ == Map::<u32, Transaction>::empty(),
    {
        Self { history: HashMap::new() }
    }

    /// Whether a transaction was recorded under `tx`.
    pub fn contains(&self, tx: u32) -> (r: bool)
        ensures
            r == self@.contains_key(tx),
    {
        broadcast use vstd::std_specs::hash::group_hash_axioms;

        self.history.contains_key(&tx)
    }

    /// The amount of the deposit recorded under `tx`; `None` where `tx` is
    /// unknown or names a withdrawal.
    pub fn deposit_amount(&self, tx: u32) -> (r: Option<i64>)
        ensures
            match r {
                Some(a) => deposit_amount(self@, tx) == Some(a as int),
                None => deposit_amount(self@, tx) is None,
            },
    {
        broadcast use vstd::std_specs::hash::group_hash_axioms;

        match self.history.get(&tx) {
            Some(Transaction::Deposit(d)) => Some(d.amount),
            _ => None,
        }
    }

    /// Records `t` under `tx`.
    pub fn record(&mut self, tx: u32, t: Transaction)
        ensures
            final(self)@ == old(self)@.insert(tx, t),
    {
        broadcast use vstd::std_specs::hash::group_hash_axioms;

        self.history.insert(tx, t);
    }
}

} // verus!
