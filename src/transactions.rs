//! The five kinds of input transaction, and how an input record names one.
use crate::amount::{amount_value, parse_amount};
use vstd::prelude::*;

verus! {

/// Funds paid into a client's account.
#[derive(Clone, Copy, Debug, PartialEq, Eq, Structural)]
pub struct Deposit {
    pub client: u16,
    pub tx: u32,
    /// In ten-thousandths of the currency unit.
    pub amount: i64,
}

impl Deposit {
    pub fn new(client: u16, tx: u32, amount: i64) -> (r: Self)
        ensures
            r == (Deposit { client, tx, amount }),
    {
        Self { client, tx, amount }
    }
}

/// Funds taken out of a client's account.
#[derive(Clone, Copy, Debug, PartialEq, Eq, Structural)]
pub struct Withdrawal {
    pub client: u16,
    pub tx: u32,
    /// In ten-thousandths of the currency unit.
    pub amount: i64,
}

impl Withdrawal {
    pub fn new(client: u16, tx: u32, amount: i64) -> (r: Self)
        ensures
            r == (Withdrawal { client, tx, amount }),
    {
        Self { client, tx, amount }
    }
}

/// A claim that an earlier deposit was wrong: its funds are put on hold.
#[derive(Clone, Copy, Debug, PartialEq, Eq, Structural)]
pub struct Dispute {
    pub client: u16,
    pub tx: u32,
}

impl Dispute {
    pub fn new(client: u16, tx: u32) -> (r: Self)
        ensures
            r == (Dispute { client, tx }),
    {
        Self { client, tx }
    }
}

/// The end of a dispute in the client's favour: the held funds are released.
#[derive(Clone, Copy, Debug, PartialEq, Eq, Structural)]
pub struct Resolve {
    pub client: u16,
    pub tx: u32,
}

impl Resolve {
    pub fn new(client: u16, tx: u32) -> (r: Self)
        ensures
            r == (Resolve { client, tx }),
    {
        Self { client, tx }
    }
}

/// The end of a dispute against the client: the held funds are withdrawn
/// and the account is frozen.
#[derive(Clone, Copy, Debug, PartialEq, Eq, Structural)]
pub struct Chargeback {
    pub client: u16,
    pub tx: u32,
}

impl Chargeback {
    pub fn new(client: u16, tx: u32) -> (r: Self)
        ensures
            r == (Chargeback { client, tx }),
    {
        Self { client, tx }
    }
}

/// One input record.
#[derive(Clone, Copy, Debug, PartialEq, Eq, Structural)]
pub enum Transaction {
    Deposit(Deposit),
    Withdrawal(Withdrawal),
    Dispute(Dispute),
    Resolve(Resolve),
    Chargeback(Chargeback),
}

/// Why an input record names no transaction.
#[derive(Clone, Copy, Debug, PartialEq, Eq, Structural)]
pub enum RecordError {
    /// The type is none of the five kinds.
    UnknownType,
    /// A deposit or withdrawal without an amount.
    MissingAmount,
    /// The amount is not a decimal that the ledger can hold.
    InvalidAmount,
}

pub open spec fn deposit_word() -> Seq<u8> {
    seq!['d' as u8, 'e' as u8, 'p' as u8, 'o' as u8, 's' as u8, 'i' as u8, 't' as u8]
}

pub open spec fn withdrawal_word() -> Seq<u8> {
    seq!['w' as u8, 'i' as u8, 't' as u8, 'h' as u8, 'd' as u8, 'r' as u8, 'a' as u8, 'w' as u8, 'a' as u8, 'l' as u8]
}

pub open spec fn dispute_word() -> Seq<u8> {
    seq!['d' as u8, 'i' as u8, 's' as u8, 'p' as u8, 'u' as u8, 't' as u8, 'e' as u8]
}

pub open spec fn resolve_word() -> Seq<u8> {
    seq!['r' as u8, 'e' as u8, 's' as u8, 'o' as u8, 'l' as u8, 'v' as u8, 'e' as u8]
}

pub open spec fn chargeback_word() -> Seq<u8> {
    seq!['c' as u8, 'h' as u8, 'a' as u8, 'r' as u8, 'g' as u8, 'e' as u8, 'b' as u8, 'a' as u8, 'c' as u8, 'k' as u8]
}

/// The amount field as given: absent, or present and empty, is no amount.
pub open spec fn amount_field(amount: Option<Seq<u8>>) -> Option<Seq<u8>> {
    match amount {
        Some(text) => if text.len() == 0 {
            None
        } else {
            Some(text)
        },
        None => None,
    }
}

/// The transaction that an input record names: its type, client, id and
/// amount field. An amount that is given must be valid whatever the type;
/// deposits and withdrawals must have one, the other kinds ignore it.
pub open spec fn record_value(
    kind: Seq<u8>,
    client: u16,
    tx: u32,
    amount: Option<Seq<u8>>,
) -> Result<Transaction, RecordError> {
    let field = amount_field(amount);
    if field is Some && amount_value(field->Some_0) is None {
        Err(RecordError::InvalidAmount)
    } else if kind == deposit_word() || kind == withdrawal_word() {
        match field {
            None => Err(RecordError::MissingAmount),
            Some(text) => {
                let a = amount_value(text)->Some_0 as i64;
                if kind == deposit_word() {
                    Ok(Transaction::Deposit(Deposit { client, tx, amount: a }))
                } else {
                    Ok(Transaction::Withdrawal(Withdrawal { client, tx, amount: a }))
                }
            },
        }
    } else if kind == dispute_word() {
        Ok(Transaction::Dispute(Dispute { client, tx }))
    } else if kind == resolve_word() {
        Ok(Transaction::Resolve(Resolve { client, tx }))
    } else if kind == chargeback_word() {
        Ok(Transaction::Chargeback(Chargeback { client, tx }))
    } else {
        Err(RecordError::UnknownType)
    }
}

/// Whether two byte strings are equal.
fn bytes_equal(a: &[u8], b: &[u8]) -> (r: bool)
    ensures
        r == (a@ == b@),
{
    if a.len() != b.len() {
        return false;
    }
    let mut i: usize = 0;
    while i < a.len()
        invariant
            a@.len() == b@.len(),
            0 <= i <= a@.len(),
            forall|j: int| 0 <= j < i ==> a@[j] == b@[j],
        decreases a@.len() - i,
    {
        if a[i] != b[i] {
            return false;
        }
        i += 1;
    }
    assert(a@ =~= b@);
    true
}

impl Transaction {
    /// The client whose account the transaction acts on.
    pub open spec fn spec_client(self) -> u16 {
        match self {
            Transaction::Deposit(d) => d.client,
            Transaction::Withdrawal(w) => w.client,
            Transaction::Dispute(d) => d.client,
            Transaction::Resolve(r) => r.client,
            Transaction::Chargeback(c) => c.client,
        }
    }

    /// The transaction id that the record carries, or refers to.
    pub open spec fn spec_tx(self) -> u32 {
        match self {
            Transaction::Deposit(d) => d.tx,
            Transaction::Withdrawal(w) => w.tx,
            Transaction::Dispute(d) => d.tx,
            Transaction::Resolve(r) => r.tx,
            Transaction::Chargeback(c) => c.tx,
        }
    }

    /// The transaction that an input record names (see `record_value`).
    pub fn from_record(kind: &[u8], client: u16, tx: u32, amount: Option<&[u8]>) -> (r: Result<
        Transaction,
        RecordError,
    >)
        ensures
            r == record_value(
                kind@,
                client,
                tx,
                match amount {
                    Some(a) => Some(a@),
                    None => None,
                },
            ),
    {
        let field: Option<&[u8]> = match amount {
            Some(a) => if a.len() == 0 {
                None
            } else {
                Some(a)
            },
            None => None,
        };
        let value: Option<i64> = match field {
            Some(text) => match parse_amount(text) {
                Some(v) => Some(v),
                None => {
                    return Err(RecordError::InvalidAmount);
                },
            },
            None => None,
        };
        let deposit: Vec<u8> = vec!['d' as u8, 'e' as u8, 'p' as u8, 'o' as u8, 's' as u8, 'i' as u8, 't' as u8];
        let withdrawal: Vec<u8> = vec!['w' as u8, 'i' as u8, 't' as u8, 'h' as u8, 'd' as u8, 'r' as u8, 'a' as u8, 'w' as u8, 'a' as u8, 'l' as u8];
        let dispute: Vec<u8> = vec!['d' as u8, 'i' as u8, 's' as u8, 'p' as u8, 'u' as u8, 't' as u8, 'e' as u8];
        let resolve: Vec<u8> = vec!['r' as u8, 'e' as u8, 's' as u8, 'o' as u8, 'l' as u8, 'v' as u8, 'e' as u8];
        let chargeback: Vec<u8> = vec!['c' as u8, 'h' as u8, 'a' as u8, 'r' as u8, 'g' as u8, 'e' as u8, 'b' as u8, 'a' as u8, 'c' as u8, 'k' as u8];
        assert(deposit@ =~= deposit_word());
        assert(withdrawal@ =~= withdrawal_word());
        assert(dispute@ =~= dispute_word());
        assert(resolve@ =~= resolve_word());
        assert(chargeback@ =~= chargeback_word());
        if bytes_equal(kind, deposit.as_slice()) {
            match value {
                Some(a) => Ok(Transaction::Deposit(Deposit::new(client, tx, a))),
                None => Err(RecordError::MissingAmount),
            }
        } else if bytes_equal(kind, withdrawal.as_slice()) {
            match value {
                Some(a) => Ok(Transaction::Withdrawal(Withdrawal::new(client, tx, a))),
                None => Err(RecordError::MissingAmount),
            }
        } else if bytes_equal(kind, dispute.as_slice()) {
            Ok(Transaction::Dispute(Dispute::new(client, tx)))
        } else if bytes_equal(kind, resolve.as_slice()) {
            Ok(Transaction::Resolve(Resolve::new(client, tx)))
        } else if bytes_equal(kind, chargeback.as_slice()) {
            Ok(Transaction::Chargeback(Chargeback::new(client, tx)))
        } else {
            Err(RecordError::UnknownType)
        }
    }
}

} // verus!
