//! Accounts and the transactions between them, as each node keeps them.
//! Amounts and balances are of a type `M` that the ledger only carries.

use vstd::prelude::*;

use crate::outside::{is_plain_uuid, new_id, plain_uuid};
use crate::text::same_text;

verus! {

/// An account: its identifier, when it was created and last used (milliseconds since
/// 1970-01-01 UTC), its owner's name and its balance.
pub struct Account<M> {
    pub id: String,
    pub created_time: u64,
    pub last_login: u64,
    pub username: String,
    pub balance: M,
}

impl<M: Copy> Clone for Account<M> {
    fn clone(&self) -> (copy: Self)
        ensures
            copy == *self,
    {
        Account {
            id: self.id.clone(),
            created_time: self.created_time,
            last_login: self.last_login,
            username: self.username.clone(),
            balance: self.balance,
        }
    }
}

/// The position of the first account whose identifier is `id`.
pub open spec fn account_position<M>(accounts: Seq<Account<M>>, id: Seq<char>) -> Option<int>
    decreases accounts.len(),
{
    if accounts.len() == 0 {
        None
    } else {
        match account_position(accounts.drop_last(), id) {
            Some(i) => Some(i),
            None => if accounts.last().id@ == id {
                Some(accounts.len() - 1)
            } else {
                None
            },
        }
    }
}

/// A position found in a prefix is the position in the whole list.
pub proof fn lemma_position_in_prefix<M>(accounts: Seq<Account<M>>, k: int, id: Seq<char>)
    requires
        0 <= k <= accounts.len(),
        account_position(accounts.take(k), id) is Some,
    ensures
        account_position(accounts, id) == account_position(accounts.take(k), id),
    decreases accounts.len() - k,
{
    if k < accounts.len() {
        let t = accounts.take(k + 1);
        assert(t.drop_last() =~= accounts.take(k));
        lemma_position_in_prefix(accounts, k + 1, id);
    } else {
        assert(accounts.take(k) =~= accounts);
    }
}

/// Finds the first account whose identifier is `id`, for reading and writing.
pub fn find_account<'a, M>(accounts: &'a mut Vec<Account<M>>, id: &str) -> (found: Option<&'a mut Account<M>>)
    ensures
        match account_position(old(accounts)@, id@) {
            Some(i) => found is Some && *found->0 == old(accounts)@[i]
                && final(accounts)@ == old(accounts)@.update(i, *final(found->0)),
            None => found is None && final(accounts)@ == old(accounts)@,
        },
{
    let n = accounts.len();
    let mut i: usize = 0;
    while i < n
        invariant
            n == accounts@.len(),
            i <= n,
            accounts@ == old(accounts)@,
            account_position(accounts@.take(i as int), id@) is None,
        decreases n - i,
    {
        proof {
            let t = accounts@.take(i as int + 1);
            assert(t.drop_last() =~= accounts@.take(i as int));
            assert(t.last() == accounts@[i as int]);
        }
        if same_text(accounts[i].id.as_str(), id) {
            proof {
                lemma_position_in_prefix(accounts@, i as int + 1, id@);
            }
            return Some(&mut accounts[i]);
        }
        i = i + 1;
    }
    assert(accounts@.take(n as int) =~= accounts@);
    None
}

/// A transfer of `amount` from one account to another, with the identifier and the
/// time (milliseconds since 1970-01-01 UTC) the node gave it and the node's address.
pub struct Transaction<M> {
    pub id: String,
    pub from_id: String,
    pub to_id: String,
    pub amount: M,
    pub timestamp: u64,
    pub node: String,
}

impl<M: Copy> Clone for Transaction<M> {
    fn clone(&self) -> (copy: Self)
        ensures
            copy == *self,
    {
        Transaction {
            id: self.id.clone(),
            from_id: self.from_id.clone(),
            to_id: self.to_id.clone(),
            amount: self.amount,
            timestamp: self.timestamp,
            node: self.node.clone(),
        }
    }
}

/// The first transaction whose identifier is `id`.
pub open spec fn find_transaction<M>(ts: Seq<Transaction<M>>, id: Seq<char>) -> Option<Transaction<M>>
    decreases ts.len(),
{
    if ts.len() == 0 {
        None
    } else if ts[0].id@ == id {
        Some(ts[0])
    } else {
        find_transaction(ts.drop_first(), id)
    }
}

/// The transactions sent from the account `account_id`, in their order.
pub open spec fn sent_from<M>(ts: Seq<Transaction<M>>, account_id: Seq<char>) -> Seq<Transaction<M>>
    decreases ts.len(),
{
    if ts.len() == 0 {
        Seq::empty()
    } else if ts.last().from_id@ == account_id {
        sent_from(ts.drop_last(), account_id).push(ts.last())
    } else {
        sent_from(ts.drop_last(), account_id)
    }
}

/// The message of a failed account lookup.
pub open spec fn not_found_message(account_id: Seq<char>) -> Seq<char> {
    "Account with ID "@ + account_id + " not found"@
}

/// Looks a transaction up by identifier: the first one with that identifier.
pub fn lookup_transaction<M: Copy>(ts: &Vec<Transaction<M>>, id: &str) -> (found: Option<Transaction<M>>)
    ensures
        found == find_transaction(ts@, id@),
{
    let n = ts.len();
    let mut i: usize = 0;
    assert(ts@.skip(0) =~= ts@);
    while i < n
        invariant
            n == ts@.len(),
            i <= n,
            find_transaction(ts@, id@) == find_transaction(ts@.skip(i as int), id@),
        decreases n - i,
    {
        proof {
            let rest = ts@.skip(i as int);
            assert(rest[0] == ts@[i as int]);
            assert(rest.drop_first() =~= ts@.skip(i as int + 1));
        }
        if same_text(ts[i].id.as_str(), id) {
            return Some(ts[i].clone());
        }
        i = i + 1;
    }
    assert(ts@.skip(n as int) =~= Seq::<Transaction<M>>::empty());
    None
}

/// The transactions sent from `account_id`, in their order.
pub fn transactions_from<M: Copy>(ts: &Vec<Transaction<M>>, account_id: &str) -> (sent: Vec<Transaction<M>>)
    ensures
        sent@ == sent_from(ts@, account_id@),
{
    let mut sent: Vec<Transaction<M>> = Vec::new();
    let n = ts.len();
    let mut i: usize = 0;
    while i < n
        invariant
            n == ts@.len(),
            i <= n,
            sent@ == sent_from(ts@.take(i as int), account_id@),
        decreases n - i,
    {
        proof {
            let t = ts@.take(i as int + 1);
            assert(t.drop_last() =~= ts@.take(i as int));
            assert(t.last() == ts@[i as int]);
        }
        if same_text(ts[i].from_id.as_str(), account_id) {
            sent.push(ts[i].clone());
        }
        i = i + 1;
    }
    assert(ts@.take(n as int) =~= ts@);
    sent
}

/// A new account holding `balance`, created at `now`, whose identifier is the UUID made
/// from `random`, without hyphens.
fn open_account<M>(username: String, balance: M, now: u64, random: [u8; 16]) -> (account: Account<M>)
    ensures
        account.id@ == plain_uuid(random@),
        is_plain_uuid(account.id@),
        account.created_time == now,
        account.last_login == now,
        account.username == username,
        account.balance == balance,
{
    Account { id: new_id(random), created_time: now, last_login: now, username, balance }
}

/// The ledger that a node keeps: its address, the accounts and the accepted transactions.
pub struct App<M> {
    pub addr: String,
    pub accounts: Vec<Account<M>>,
    pub transactions: Vec<Transaction<M>>,
}

impl<M: Copy> App<M> {
    /// An empty ledger for the node at `addr`.
    pub fn new(addr: String) -> (app: App<M>)
        ensures
            app.addr == addr,
            app.accounts@.len() == 0,
            app.transactions@.len() == 0,
    {
        App { addr, accounts: Vec::new(), transactions: Vec::new() }
    }

    /// An identifier: the version-4 UUID made from `random`, without hyphens.
    pub fn create_uuid(random: [u8; 16]) -> (id: String)
        ensures
            id@ == plain_uuid(random@),
            is_plain_uuid(id@),
    {
        new_id(random)
    }

    /// Opens an account for `username` that holds `balance`, created at `now` under the
    /// identifier made from `random`, adds it to the ledger and returns it.
    pub fn create_account(&mut self, username: String, balance: M, now: u64, random: [u8; 16]) -> (account: Account<M>)
        ensures
            account.id@ == plain_uuid(random@),
            is_plain_uuid(account.id@),
            account.created_time == now,
            account.last_login == now,
            account.username == username,
            account.balance == balance,
            final(self).accounts@ == old(self).accounts@.push(account),
            final(self).transactions@ == old(self).transactions@,
            final(self).addr == old(self).addr,
    {
        let account = open_account(username, balance, now, random);
        self.accounts.push(account.clone());
        account
    }

    /// The first account whose identifier is `account_id`, for reading and writing;
    /// an error message when there is none.
    pub fn get_account(&mut self, account_id: &str) -> (found: Result<&mut Account<M>, String>)
        ensures
            match account_position(old(self).accounts@, account_id@) {
                Some(i) => found is Ok && *found->Ok_0 == old(self).accounts@[i]
                    && final(self).accounts@ == old(self).accounts@.update(i, *final(found->Ok_0)),
                None => found is Err && found->Err_0@ == not_found_message(account_id@)
                    && final(self).accounts@ == old(self).accounts@,
            },
            final(self).transactions@ == old(self).transactions@,
            final(self).addr == old(self).addr,
    {
        match find_account(&mut self.accounts, account_id) {
            Some(account) => Ok(account),
            None => {
                let mut message = "Account with ID ".to_owned();
                message.append(account_id);
                message.append(" not found");
                Err(message)
            },
        }
    }

    /// All accepted transactions, in the order they were accepted.
    pub fn get_all_transactions(self) -> (all: Vec<Transaction<M>>)
        ensures
            all@ == self.transactions@,
    {
        self.transactions
    }

    /// The first accepted transaction whose identifier is `transaction_id`.
    pub fn get_transaction(self, transaction_id: String) -> (found: Result<Transaction<M>, ()>)
        ensures
            match find_transaction(self.transactions@, transaction_id@) {
                Some(t) => found == Ok::<Transaction<M>, ()>(t),
                None => found is Err,
            },
    {
        match lookup_transaction(&self.transactions, transaction_id.as_str()) {
            Some(t) => Ok(t),
            None => Err(()),
        }
    }

    /// The accepted transactions sent from `account_id`, in their order.
    pub fn get_transaction_by_account(self, account_id: String) -> (sent: Vec<Transaction<M>>)
        ensures
            sent@ == sent_from(self.transactions@, account_id@),
    {
        transactions_from(&self.transactions, account_id.as_str())
    }
}

/// A node's ledger in its standalone form: the same accounts and transactions, where
/// a transaction is first drawn up and checked afterwards.
pub struct Server<M> {
    pub addr: String,
    pub accounts: Vec<Account<M>>,
    pub transactions: Vec<Transaction<M>>,
}

impl<M: Copy> Server<M> {
    /// An empty ledger for the node at `addr`.
    pub fn new(addr: String) -> (server: Server<M>)
        ensures
            server.addr == addr,
            server.accounts@.len() == 0,
            server.transactions@.len() == 0,
    {
        Server { addr, accounts: Vec::new(), transactions: Vec::new() }
    }

    /// An identifier: the version-4 UUID made from `random`, without hyphens.
    pub fn create_uuid(random: [u8; 16]) -> (id: String)
        ensures
            id@ == plain_uuid(random@),
            is_plain_uuid(id@),
    {
        new_id(random)
    }

    /// Opens an account for `user_name` that holds `balance`, created at `now` under the
    /// identifier made from `random`, adds it to the ledger and returns it.
    pub fn create_account(&mut self, user_name: String, balance: M, now: u64, random: [u8; 16]) -> (account: Account<M>)
        ensures
            account.id@ == plain_uuid(random@),
            is_plain_uuid(account.id@),
            account.created_time == now,
            account.last_login == now,
            account.username == user_name,
            account.balance == balance,
            final(self).accounts@ == old(self).accounts@.push(account),
            final(self).transactions@ == old(self).transactions@,
            final(self).addr == old(self).addr,
    {
        let account = open_account(user_name, balance, now, random);
        self.accounts.push(account.clone());
        account
    }

    /// The first account whose identifier is `account_id`, for reading and writing.
    pub fn get_account(&mut self, account_id: &str) -> (found: Result<&mut Account<M>, ()>)
        ensures
            match account_position(old(self).accounts@, account_id@) {
                Some(i) => found is Ok && *found->Ok_0 == old(self).accounts@[i]
                    && final(self).accounts@ == old(self).accounts@.update(i, *final(found->Ok_0)),
                None => found is Err && final(self).accounts@ == old(self).accounts@,
            },
            final(self).transactions@ == old(self).transactions@,
            final(self).addr == old(self).addr,
    {
        match find_account(&mut self.accounts, account_id) {
            Some(account) => Ok(account),
            None => Err(()),
        }
    }

    /// Draws up a transaction of `amount` from `from_id` to `to_id` at this node, made at
    /// `now` under the identifier made from `random`; it is not checked or recorded.
    pub fn create_transaction(&mut self, from_id: String, to_id: String, amount: M, now: u64, random: [u8; 16]) -> (t: Transaction<M>)
        ensures
            t.id@ == plain_uuid(random@),
            is_plain_uuid(t.id@),
            t.timestamp == now,
            t.from_id == from_id,
            t.to_id == to_id,
            t.amount == amount,
            t.node == old(self).addr,
            *final(self) == *old(self),
    {
        Transaction {
            id: new_id(random),
            from_id,
            to_id,
            amount,
            timestamp: now,
            node: self.addr.clone(),
        }
    }

    /// All recorded transactions, in their order.
    pub fn get_transactions(self) -> (all: Vec<Transaction<M>>)
        ensures
            all@ == self.transactions@,
    {
        self.transactions
    }

    /// All recorded transactions, in their order.
    pub fn get_all_transactions(self) -> (all: Vec<Transaction<M>>)
        ensures
            all@ == self.transactions@,
    {
        self.transactions
    }

    /// The first recorded transaction whose identifier is `transaction_id`.
    pub fn get_transaction(self, transaction_id: String) -> (found: Result<Transaction<M>, ()>)
        ensures
            match find_transaction(self.transactions@, transaction_id@) {
                Some(t) => found == Ok::<Transaction<M>, ()>(t),
                None => found is Err,
            },
    {
        match lookup_transaction(&self.transactions, transaction_id.as_str()) {
            Some(t) => Ok(t),
            None => Err(()),
        }
    }

    /// The recorded transactions sent from `account_id`, in their order.
    pub fn get_transaction_by_account(self, account_id: String) -> (sent: Vec<Transaction<M>>)
        ensures
            sent@ == sent_from(self.transactions@, account_id@),
    {
        transactions_from(&self.transactions, account_id.as_str())
    }
}

/// An account opened under an identifier that no earlier account has is found by it.
pub proof fn lemma_new_account_found<M>(accounts: Seq<Account<M>>, account: Account<M>)
    requires
        account_position(accounts, account.id@) is None,
    ensures
        account_position(accounts.push(account), account.id@) == Some(accounts.len() as int),
{
    assert(accounts.push(account).drop_last() =~= accounts);
}

/// Opening an account does not change where the earlier accounts are found.
pub proof fn lemma_old_account_kept<M>(accounts: Seq<Account<M>>, account: Account<M>, id: Seq<char>)
    requires
        account_position(accounts, id) is Some,
    ensures
        account_position(accounts.push(account), id) == account_position(accounts, id),
{
    assert(accounts.push(account).drop_last() =~= accounts);
}

/// Recording a transaction adds it to the list of its sender, and to no other.
pub proof fn lemma_sent_from_push<M>(ts: Seq<Transaction<M>>, t: Transaction<M>, account_id: Seq<char>)
    ensures
        sent_from(ts.push(t), account_id) == if t.from_id@ == account_id {
            sent_from(ts, account_id).push(t)
        } else {
            sent_from(ts, account_id)
        },
{
    assert(ts.push(t).drop_last() =~= ts);
}

} // verus!
