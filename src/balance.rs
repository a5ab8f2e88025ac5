//! Per-client balances and the registry that holds them.
use std::collections::{BTreeMap, BTreeSet};
use crate::amount::{amount_text, decimal_text, fits_i64, write_amount, write_decimal};
use vstd::prelude::*;
use vstd::std_specs::btree::{increasing_seq, spec_btree_map_iter};
use vstd::std_specs::cmp::OrdSpec;
use vstd::std_specs::iter::IteratorSpec;
use vstd::string::StringExecFns;

verus! {

/// What an account is, as a mathematical value.
pub struct AccountModel {
    pub available: int,
    pub held: int,
    pub total: int,
    pub locked: bool,
    pub disputed: Set<u32>,
}

impl AccountModel {
    /// The account that a client gets on first use: nothing in it, unlocked.
    pub open spec fn fresh() -> AccountModel {
        AccountModel { available: 0, held: 0, total: 0, locked: false, disputed: Set::empty() }
    }

    /// Each balance fits in an `i64`.
    pub open spec fn in_range(self) -> bool {
        fits_i64(self.available) && fits_i64(self.held) && fits_i64(self.total)
    }

    /// The total is what is available plus what is held.
    pub open spec fn balanced(self) -> bool {
        self.total == self.available + self.held
    }
}

/// The account of `client`, or a fresh one where the ledger has none yet.
pub open spec fn account_or_fresh(accounts: Map<u16, AccountModel>, client: u16) -> AccountModel {
    if accounts.contains_key(client) {
        accounts[client]
    } else {
        AccountModel::fresh()
    }
}

/// Every account of the ledger is balanced.
pub open spec fn all_balanced(accounts: Map<u16, AccountModel>) -> bool {
    forall|c: u16| #[trigger] accounts.contains_key(c) ==> accounts[c].balanced()
}

/// The header line of the balance export.
pub open spec fn csv_header() -> Seq<char> {
    "client,available,held,total,locked\n"@
}

pub open spec fn bool_text(b: bool) -> Seq<char> {
    if b {
        "true"@
    } else {
        "false"@
    }
}

/// The export line of one account.
pub open spec fn row_text(client: u16, a: AccountModel) -> Seq<char> {
    decimal_text(client as nat) + seq![','] + amount_text(a.available) + seq![','] + amount_text(
        a.held,
    ) + seq![','] + amount_text(a.total) + seq![','] + bool_text(a.locked) + seq!['\n']
}

/// The export lines of the accounts of `clients`, in that order.
pub open spec fn rows_text(accounts: Map<u16, AccountModel>, clients: Seq<u16>) -> Seq<char>
    decreases clients.len(),
{
    if clients.len() == 0 {
        Seq::empty()
    } else {
        rows_text(accounts, clients.drop_last()) + row_text(
            clients.last(),
            accounts[clients.last()],
        )
    }
}

/// `clients` lists the ids of `ids` from the smallest up, each once.
pub open spec fn in_increasing_order(clients: Seq<u16>, ids: Set<u16>) -> bool {
    &&& forall|i: int, j: int| 0 <= i < j < clients.len() ==> clients[i] < clients[j]
    &&& forall|c: u16| ids.contains(c) <==> clients.contains(c)
}

/// The balance export of a ledger: the header, then one line per client in
/// increasing order of client id.
pub open spec fn csv_text(accounts: Map<u16, AccountModel>, clients: Seq<u16>) -> Seq<char> {
    csv_header() + rows_text(accounts, clients)
}

/// One client's account.
#[derive(Clone, Debug, PartialEq)]
pub struct ClientBalance {
    /// Funds the client may withdraw, in ten-thousandths.
    pub available: i64,
    /// Funds frozen by open disputes, in ten-thousandths.
    pub held: i64,
    /// `available + held`, in ten-thousandths.
    pub total: i64,
    /// Set by a chargeback; a locked account accepts nothing more.
    pub locked: bool,
    /// The deposits of this client that are under dispute.
    pub disputed_transactions: BTreeSet<u32>,
}

impl View for ClientBalance {
    type V = AccountModel;

    open spec fn view(&self) -> AccountModel {
        AccountModel {
            available: self.available as int,
            held: self.held as int,
            total: self.total as int,
            locked: self.locked,
            disputed: self.disputed_transactions@,
        }
    }
}

impl ClientBalance {
    pub fn new(
        available: i64,
        held: i64,
        total: i64,
        locked: bool,
        disputed_transactions: BTreeSet<u32>,
    ) -> (r: Self)
        ensures
            r.available == available,
            r.held == held,
            r.total == total,
            r.locked == locked,
            r.disputed_transactions@ == disputed_transactions@,
    {
        Self { available, held, total, locked, disputed_transactions }
    }

    /// An empty, unlocked account.
    pub fn fresh() -> (r: Self)
        ensures
            r@ == AccountModel::fresh(),
    {
        Self::new(0, 0, 0, false, BTreeSet::new())
    }
}

/// The accounts of all clients seen so far, by client id.
#[derive(Clone, Debug, PartialEq)]
pub struct ClientBalanceRegistry {
    pub client_balances: BTreeMap<u16, ClientBalance>,
}

/// One more line of the export.
proof fn lemma_rows_push(accounts: Map<u16, AccountModel>, clients: Seq<u16>, c: u16)
    ensures
        rows_text(accounts, clients.push(c)) == rows_text(accounts, clients) + row_text(
            c,
            accounts[c],
        ),
{
    assert(clients.push(c).drop_last() =~= clients);
}

/// The keys that a map's iterator hands out come from the smallest up and
/// are the map's keys.
proof fn lemma_increasing_clients(m: &BTreeMap<u16, ClientBalance>, clients: Seq<u16>)
    requires
        clients == spec_btree_map_iter(m).remaining().map_values(
            |e: (&u16, &ClientBalance)| *e.0,
        ),
        increasing_seq(clients),
    ensures
        in_increasing_order(clients, ledger_of(m@).dom()),
{
    let entries = spec_btree_map_iter(m).remaining();
    assert(vstd::laws_cmp::obeys_cmp::<u16>());
    assert forall|i: int, j: int| 0 <= i < j < clients.len() implies clients[i] < clients[j] by {
        assert(clients[i].cmp_spec(&clients[j]) is Less);
    }
    assert forall|c: u16| ledger_of(m@).dom().contains(c) <==> clients.contains(c) by {
        if m@.contains_key(c) {
            assert(entries.contains((&c, &m@[c])));
            let i = choose|i: int| 0 <= i < entries.len() && entries[i] == (&c, &m@[c]);
            assert(clients[i] == c);
        }
        if clients.contains(c) {
            let i = choose|i: int| 0 <= i < clients.len() && clients[i] == c;
            assert(m@.contains_key(*entries[i].0));
        }
    }
}

/// Appends the export line of one account.
fn write_row(out: &mut String, client: u16, b: &ClientBalance)
    ensures
        final(out)@ == old(out)@ + row_text(client, b@),
{
    let ghost start = out@;
    write_decimal(out, client as u64);
    out.append(",");
    write_amount(out, b.available);
    out.append(",");
    write_amount(out, b.held);
    out.append(",");
    write_amount(out, b.total);
    out.append(",");
    if b.locked {
        out.append("true");
    } else {
        out.append("false");
    }
    out.append("\n");
    proof {
        reveal_strlit(",");
        reveal_strlit("true");
        reveal_strlit("false");
        reveal_strlit("\n");
    }
    assert(out@ =~= start + row_text(client, b@));
}

/// Every balance of the ledger fits in an `i64`.
pub open spec fn all_in_range(accounts: Map<u16, AccountModel>) -> bool {
    forall|c: u16| #[trigger] accounts.contains_key(c) ==> accounts[c].in_range()
}

/// The balances of stored accounts are `i64` values.
pub proof fn lemma_ledger_in_range(m: Map<u16, ClientBalance>)
    ensures
        all_in_range(ledger_of(m)),
{
}

/// The mathematical ledger that a map of accounts stands for.
pub open spec fn ledger_of(m: Map<u16, ClientBalance>) -> Map<u16, AccountModel> {
    m.map_values(|b: ClientBalance| b@)
}

impl View for ClientBalanceRegistry {
    type V = Map<u16, AccountModel>;

    open spec fn view(&self) -> Map<u16, AccountModel> {
        ledger_of(self.client_balances@)
    }
}

impl Default for ClientBalanceRegistry {
    fn default() -> (r: Self)
        ensures
            r@ == Map::<u16, AccountModel>::empty(),
    {
        Self::new()
    }
}

impl ClientBalanceRegistry {
    /// A registry with no accounts.
    pub fn new() -> (r: Self)
        ensures
            r@ == Map::<u16, AccountModel>::empty(),
    {
        let r = Self { client_balances: BTreeMap::new() };
        assert(r@ =~= Map::<u16, AccountModel>::empty());
        r
    }

    /// A registry that holds the given accounts.
    pub fn load_registry(client_balances: BTreeMap<u16, ClientBalance>) -> (r: Self)
        ensures
            r@ == ledger_of(client_balances@),
            r.client_balances@ == client_balances@,
    {
        Self { client_balances }
    }

    /// The balance export: a header line, then per client, from the
    /// smallest id up, a line `client,available,held,total,locked` with the
    /// amounts as shortest decimals.
    pub fn to_csv(&self) -> (r: String)
        ensures
            exists|clients: Seq<u16>|
                in_increasing_order(clients, self@.dom()) && r@ == csv_text(self@, clients),
    {
        let mut out = String::new();
        out.append("client,available,held,total,locked\n");
        proof { reveal_strlit("client,available,held,total,locked\n"); }
        let iter = self.client_balances.iter();
        let ghost entries = iter.remaining();
        let ghost mut clients: Seq<u16> = Seq::empty();
        for kv in it: iter
            invariant
                increasing_seq(entries.map_values(|e: (&u16, &ClientBalance)| *e.0)),
                it.seq() == entries,
                entries == spec_btree_map_iter(&self.client_balances).remaining(),
                clients == entries.take(it.index() as int).map_values(
                    |e: (&u16, &ClientBalance)| *e.0,
                ),
                out@ == csv_text(self@, clients),
        {
            let (c, b) = kv;
            proof {
                let i = it.index();
                assert(entries[i] == kv);
                assert(self.client_balances@.contains_key(*c));
                lemma_rows_push(self@, clients, *c);
                assert(entries.take(i + 1).map_values(|e: (&u16, &ClientBalance)| *e.0)
                    =~= clients.push(*c));
            }
            write_row(&mut out, *c, b);
            proof {
                clients = clients.push(*c);
            }
        }
        proof {
            assert(entries.take(entries.len() as int) =~= entries);
            lemma_increasing_clients(&self.client_balances, clients);
        }
        out
    }

    /// Whether `client` has an account.
    pub fn has_account(&self, client: u16) -> (r: bool)
        ensures
            r == self@.contains_key(client),
    {
        self.client_balances.contains_key(&client)
    }

    /// Whether `tx` is under dispute on the account of `client`; a client
    /// without an account has no disputes.
    pub fn is_disputed(&self, client: u16, tx: u32) -> (r: bool)
        ensures
            r == account_or_fresh(self@, client).disputed.contains(tx),
    {
        match self.client_balances.get(&client) {
            Some(b) => b.disputed_transactions.contains(&tx),
            None => false,
        }
    }

    /// Whether the account of `client` is locked; a client without an
    /// account is not.
    pub fn is_locked(&self, client: u16) -> (r: bool)
        ensures
            r == account_or_fresh(self@, client).locked,
    {
        match self.client_balances.get(&client) {
            Some(b) => b.locked,
            None => false,
        }
    }

    /// Takes the account of `client` out of the registry; a client without
    /// an account gets a fresh one.
    pub(crate) fn take_account(&mut self, client: u16) -> (r: ClientBalance)
        ensures
            r@ == account_or_fresh(old(self)@, client),
            final(self)@ == old(self)@.remove(client),
    {
        let r = match self.client_balances.remove(&client) {
            Some(b) => b,
            None => ClientBalance::fresh(),
        };
        assert(self@ =~= old(self)@.remove(client));
        r
    }

    /// Stores `b` as the account of `client`.
    pub(crate) fn put_account(&mut self, client: u16, b: ClientBalance)
        ensures
            final(self)@ == old(self)@.insert(client, b@),
    {
        self.client_balances.insert(client, b);
        assert(self@ =~= old(self)@.insert(client, b@));
    }
}

} // verus!
