//! A small single-process ledger: named accounts with unsigned balances,
//! a pool of pending operations, and a commit cycle that batches the pool
//! into blocks on an append-only chain.
//!
//! Operations are validated eagerly against the balances as they will
//! stand once everything pending has committed, and applied to the store
//! only when a block is mined; the speculative balances therefore never
//! change at commit time, and a commit can never fail to apply an
//! operation it carries.

use vstd::prelude::*;
use core::time::Duration;

pub mod commands;
pub mod storage;
pub mod text;

use crate::storage::{
    Storage, slookup, supdate, lookup_or_zero, ssum, render_accounts,
    lemma_slookup_supdate_same, lemma_slookup_supdate_other, lemma_ssum_supdate,
};
use crate::text::{dec_str, u64_to_string, str_eq};

verus! {

/// One not-yet-committed ledger operation.
#[derive(Debug)]
pub enum Transaction {
    Transfer { from: String, to: String, amount: u64 },
    CreateAccount { id: String, balance: u64 },
}

/// One committed batch of operations, with its chain-position metadata.
/// `prev_block_hash` is a chaining placeholder derived from the previous
/// block's fields, not a cryptographic digest.
#[derive(Debug)]
pub struct Block {
    pub timestamp: u64,
    pub transactions: Vec<Transaction>,
    pub prev_block_hash: String,
    pub nonce: u64,
}

/// Why a ledger request was refused.
#[derive(Debug, Clone, Copy, PartialEq, Eq, Structural)]
pub enum LedgerError {
    /// The node is not accepting account creations.
    NotRunning,
    /// The identifier is already taken.
    AlreadyExists,
    /// No account carries the identifier.
    NotFound,
    /// The source account holds less than the requested amount.
    InsufficientFunds,
    /// Crediting the destination would exceed the balance width.
    BalanceOverflow,
}

/// Whether a transfer can apply to the balances `s`: the source exists,
/// holds at least `amount`, and the credit stays within `u64`.
pub open spec fn transfer_ok(
    s: Seq<(Seq<char>, u64)>,
    from: Seq<char>,
    to: Seq<char>,
    amount: u64,
) -> bool {
    &&& slookup(s, from) is Some
    &&& amount <= slookup(s, from).unwrap()
    &&& lookup_or_zero(supdate(s, from, (slookup(s, from).unwrap() - amount) as u64), to) + amount
        <= u64::MAX
}

/// The balances after a transfer: the source is debited, then the
/// destination credited, created with balance zero first when absent.
/// A transfer that cannot apply leaves the balances unchanged.
pub open spec fn apply_transfer(
    s: Seq<(Seq<char>, u64)>,
    from: Seq<char>,
    to: Seq<char>,
    amount: u64,
) -> Seq<(Seq<char>, u64)> {
    if transfer_ok(s, from, to, amount) {
        let debited = supdate(s, from, (slookup(s, from).unwrap() - amount) as u64);
        supdate(debited, to, (lookup_or_zero(debited, to) + amount) as u64)
    } else {
        s
    }
}

/// The balances after an account creation: the identifier is bound to the
/// initial balance, overwriting any binding it had.
pub open spec fn apply_create(s: Seq<(Seq<char>, u64)>, id: Seq<char>, balance: u64) -> Seq<
    (Seq<char>, u64),
> {
    supdate(s, id, balance)
}

/// The balances after one operation.
pub open spec fn apply_tx(s: Seq<(Seq<char>, u64)>, t: Transaction) -> Seq<(Seq<char>, u64)> {
    match t {
        Transaction::Transfer { from, to, amount } => apply_transfer(s, from@, to@, amount),
        Transaction::CreateAccount { id, balance } => apply_create(s, id@, balance),
    }
}

/// The balances after a sequence of operations, applied in order.
pub open spec fn apply_txs(s: Seq<(Seq<char>, u64)>, ts: Seq<Transaction>) -> Seq<(Seq<char>, u64)>
    decreases ts.len(),
{
    if ts.len() == 0 {
        s
    } else {
        apply_tx(apply_txs(s, ts.drop_last()), ts.last())
    }
}

proof fn lemma_apply_txs_push(s: Seq<(Seq<char>, u64)>, ts: Seq<Transaction>, t: Transaction)
    ensures
        apply_txs(s, ts.push(t)) == apply_tx(apply_txs(s, ts), t),
{
    assert(ts.push(t).drop_last() =~= ts);
    assert(ts.push(t).last() == t);
}

/// The chain-link placeholder carried by the next block: the decimal
/// timestamp of the last block followed by that block's own link.
pub open spec fn link_of(chain: Seq<Block>) -> Seq<char> {
    if chain.len() == 0 {
        Seq::empty()
    } else {
        dec_str(chain.last().timestamp as nat) + chain.last().prev_block_hash@
    }
}

/// Relies on std::time::SystemTime for the wall clock, read as whole
/// seconds since the Unix epoch; nothing is assumed of the value.
#[verifier::external_body]
fn now_secs() -> u64 {
    match std::time::SystemTime::now().duration_since(std::time::UNIX_EPOCH) {
        Ok(elapsed) => elapsed.as_secs(),
        Err(_) => 0,
    }
}

impl Block {
    /// A block stamped with the current wall-clock time and the
    /// placeholder nonce: no proof-of-work search is performed.
    pub fn new(transactions: Vec<Transaction>, prev_block_hash: String) -> (r: Block)
        ensures
            r.transactions == transactions,
            r.prev_block_hash == prev_block_hash,
            r.nonce == 0,
    {
        Block { timestamp: now_secs(), transactions, prev_block_hash, nonce: 0 }
    }
}

/// The ledger: committed balances, the pending-operation pool, the block
/// chain, and the activity flag that gates creations and commits.
pub struct Blockchain {
    pub storage: Storage,
    pub pending_transactions: Vec<Transaction>,
    pub block_time: Duration,
    pub chain: Vec<Block>,
    pub is_active: bool,
}

impl Blockchain {
    /// The balances as they will stand once every pending operation has
    /// committed; requests are validated against these.
    pub open spec fn effective(self) -> Seq<(Seq<char>, u64)> {
        apply_txs(self.storage@, self.pending_transactions@)
    }

    /// A fresh inactive ledger holding no accounts and only the genesis
    /// block. Prior persisted state, if any, is installed by the caller.
    pub fn new(block_time: Duration) -> (r: Blockchain)
        ensures
            r.storage@ == Seq::<(Seq<char>, u64)>::empty(),
            r.pending_transactions@ == Seq::<Transaction>::empty(),
            r.chain@.len() == 1,
            r.chain@[0].transactions@ == Seq::<Transaction>::empty(),
            r.chain@[0].prev_block_hash@ == Seq::<char>::empty(),
            r.chain@[0].nonce == 0,
            r.is_active == false,
            r.block_time == block_time,
    {
        let genesis = Block::new(Vec::new(), String::new());
        let mut chain: Vec<Block> = Vec::new();
        chain.push(genesis);
        let r = Blockchain {
            storage: Storage::new(),
            pending_transactions: Vec::new(),
            block_time,
            chain,
            is_active: false,
        };
        r
    }

    /// Marks the node inactive; pending operations and history are kept.
    pub fn stop_node(&mut self)
        ensures
            final(self).is_active == false,
            final(self).storage == old(self).storage,
            final(self).pending_transactions == old(self).pending_transactions,
            final(self).chain == old(self).chain,
            final(self).block_time == old(self).block_time,
    {
        self.is_active = false;
    }

    /// The committed balance of `account`.
    pub fn balance(&self, account: &str) -> (r: Result<u64, LedgerError>)
        ensures
            r == match slookup(self.storage@, account@) {
                Some(v) => Ok::<u64, LedgerError>(v),
                None => Err::<u64, LedgerError>(LedgerError::NotFound),
            },
    {
        match self.storage.get(account) {
            Some(v) => Ok(v),
            None => Err(LedgerError::NotFound),
        }
    }

    /// Renders one line per committed account, or a fixed sentinel when
    /// there are none.
    pub fn list_accounts(&self) -> (r: String)
        ensures
            r@ == if self.storage@.len() == 0 {
                "No accounts found."@
            } else {
                render_accounts(self.storage@)
            },
    {
        if self.storage.is_empty() {
            String::from_str("No accounts found.")
        } else {
            self.storage.render_list()
        }
    }

    /// The link the next block will carry.
    pub fn get_last_block_hash(&self) -> (r: String)
        ensures
            r@ == link_of(self.chain@),
    {
        let n = self.chain.len();
        if n == 0 {
            String::new()
        } else {
            let ts = u64_to_string(self.chain[n - 1].timestamp);
            let r = ts.concat(self.chain[n - 1].prev_block_hash.as_str());
            proof {
                assert(self.chain@.last() == self.chain@[n - 1]);
            }
            r
        }
    }
}

impl Blockchain {
    /// The balances with every pending operation applied, materialized.
    fn effective_accounts(&self) -> (r: Storage)
        ensures
            r@ == self.effective(),
    {
        let mut acc = self.storage.duplicate();
        let n = self.pending_transactions.len();
        let mut i: usize = 0;
        proof {
            assert(self.pending_transactions@.take(0) =~= Seq::<Transaction>::empty());
        }
        while i < n
            invariant
                0 <= i <= n,
                n == self.pending_transactions@.len(),
                acc@ == apply_txs(self.storage@, self.pending_transactions@.take(i as int)),
            decreases n - i,
        {
            apply_tx_exec(&mut acc, &self.pending_transactions[i]);
            proof {
                assert(self.pending_transactions@.take(i + 1).drop_last()
                    =~= self.pending_transactions@.take(i as int));
                assert(self.pending_transactions@.take(i + 1).last()
                    == self.pending_transactions@[i as int]);
            }
            i = i + 1;
        }
        proof {
            assert(self.pending_transactions@.take(n as int) =~= self.pending_transactions@);
        }
        acc
    }

    /// Queues the creation of a new account. Refused when the node is
    /// inactive, or when the identifier is taken — counting creations
    /// that are still pending; nothing changes on refusal.
    pub fn create_account(&mut self, id: &str, balance: u64) -> (r: Result<(), LedgerError>)
        ensures
            !old(self).is_active ==> r == Err::<(), LedgerError>(LedgerError::NotRunning) && *final(self) == *old(self),
            old(self).is_active && slookup(old(self).effective(), id@) is Some ==> r == Err::<
                (),
                LedgerError,
            >(LedgerError::AlreadyExists) && *final(self) == *old(self),
            old(self).is_active && slookup(old(self).effective(), id@) is None ==> ({
                &&& r == Ok::<(), LedgerError>(())
                &&& final(self).effective() == apply_create(old(self).effective(), id@, balance)
                &&& final(self).storage == old(self).storage
                &&& final(self).chain == old(self).chain
                &&& final(self).is_active
                &&& final(self).block_time == old(self).block_time
                &&& final(self).pending_transactions@.len() == old(self).pending_transactions@.len() + 1
                &&& final(self).pending_transactions@.drop_last() == old(self).pending_transactions@
                &&& (final(self).pending_transactions@.last() matches Transaction::CreateAccount {
                    id: nid,
                    balance: nb,
                } && nid@ == id@ && nb == balance)
            }),
    {
        if !self.is_active {
            return Err(LedgerError::NotRunning);
        }
        let eff = self.effective_accounts();
        if eff.contains(id) {
            return Err(LedgerError::AlreadyExists);
        }
        let tx = Transaction::CreateAccount { id: String::from_str(id), balance };
        self.pending_transactions.push(tx);
        proof {
            lemma_apply_txs_push(
                self.storage@,
                old(self).pending_transactions@,
                self.pending_transactions@.last(),
            );
            assert(self.pending_transactions@.drop_last() =~= old(self).pending_transactions@);
        }
        Ok(())
    }

    /// Queues a transfer. Refused when the source is unknown, short of
    /// funds, or the credit would overflow the balance width, all judged
    /// against the balances with everything pending applied; nothing
    /// changes on refusal.
    pub fn add_transaction(&mut self, from: String, to: String, amount: u64) -> (r: Result<
        (),
        LedgerError,
    >)
        ensures
            slookup(old(self).effective(), from@) is None ==> r == Err::<(), LedgerError>(
                LedgerError::NotFound,
            ) && *final(self) == *old(self),
            slookup(old(self).effective(), from@) is Some && amount > slookup(
                old(self).effective(),
                from@,
            ).unwrap() ==> r == Err::<(), LedgerError>(LedgerError::InsufficientFunds) && *final(self) == *old(self),
            slookup(old(self).effective(), from@) is Some && amount <= slookup(
                old(self).effective(),
                from@,
            ).unwrap() && !transfer_ok(old(self).effective(), from@, to@, amount) ==> r == Err::<
                (),
                LedgerError,
            >(LedgerError::BalanceOverflow) && *final(self) == *old(self),
            transfer_ok(old(self).effective(), from@, to@, amount) ==> ({
                &&& r == Ok::<(), LedgerError>(())
                &&& final(self).effective() == apply_transfer(
                    old(self).effective(),
                    from@,
                    to@,
                    amount,
                )
                &&& final(self).storage == old(self).storage
                &&& final(self).chain == old(self).chain
                &&& final(self).is_active == old(self).is_active
                &&& final(self).block_time == old(self).block_time
                &&& final(self).pending_transactions@.len() == old(self).pending_transactions@.len() + 1
                &&& final(self).pending_transactions@.drop_last() == old(self).pending_transactions@
                &&& (final(self).pending_transactions@.last() matches Transaction::Transfer {
                    from: f,
                    to: t,
                    amount: a,
                } && f@ == from@ && t@ == to@ && a == amount)
            }),
    {
        let eff = self.effective_accounts();
        let from_balance = match eff.get(from.as_str()) {
            Some(v) => v,
            None => {
                return Err(LedgerError::NotFound);
            },
        };
        if amount > from_balance {
            return Err(LedgerError::InsufficientFunds);
        }
        let debited_balance = from_balance - amount;
        let to_balance = if str_eq(from.as_str(), to.as_str()) {
            proof {
                lemma_slookup_supdate_same(eff@, from@, debited_balance);
            }
            debited_balance
        } else {
            proof {
                lemma_slookup_supdate_other(eff@, from@, debited_balance, to@);
            }
            match eff.get(to.as_str()) {
                Some(v) => v,
                None => 0,
            }
        };
        if to_balance.checked_add(amount).is_none() {
            return Err(LedgerError::BalanceOverflow);
        }
        let tx = Transaction::Transfer { from, to, amount };
        self.pending_transactions.push(tx);
        proof {
            lemma_apply_txs_push(
                self.storage@,
                old(self).pending_transactions@,
                self.pending_transactions@.last(),
            );
            assert(self.pending_transactions@.drop_last() =~= old(self).pending_transactions@);
        }
        Ok(())
    }

    /// Queues a transfer, as [`Self::add_transaction`] does.
    pub fn transfer(&mut self, from: &str, to: &str, amount: u64) -> (r: Result<(), LedgerError>)
        ensures
            slookup(old(self).effective(), from@) is None ==> r == Err::<(), LedgerError>(
                LedgerError::NotFound,
            ) && *final(self) == *old(self),
            slookup(old(self).effective(), from@) is Some && amount > slookup(
                old(self).effective(),
                from@,
            ).unwrap() ==> r == Err::<(), LedgerError>(LedgerError::InsufficientFunds) && *final(self) == *old(self),
            slookup(old(self).effective(), from@) is Some && amount <= slookup(
                old(self).effective(),
                from@,
            ).unwrap() && !transfer_ok(old(self).effective(), from@, to@, amount) ==> r == Err::<
                (),
                LedgerError,
            >(LedgerError::BalanceOverflow) && *final(self) == *old(self),
            transfer_ok(old(self).effective(), from@, to@, amount) ==> ({
                &&& r == Ok::<(), LedgerError>(())
                &&& final(self).effective() == apply_transfer(
                    old(self).effective(),
                    from@,
                    to@,
                    amount,
                )
                &&& final(self).storage == old(self).storage
                &&& final(self).chain == old(self).chain
                &&& final(self).is_active == old(self).is_active
                &&& final(self).block_time == old(self).block_time
                &&& final(self).pending_transactions@.len() == old(self).pending_transactions@.len() + 1
                &&& final(self).pending_transactions@.drop_last() == old(self).pending_transactions@
                &&& (final(self).pending_transactions@.last() matches Transaction::Transfer {
                    from: f,
                    to: t,
                    amount: a,
                } && f@ == from@ && t@ == to@ && a == amount)
            }),
    {
        self.add_transaction(String::from_str(from), String::from_str(to), amount)
    }

    /// Commits the pending pool: drains it, applies every operation to
    /// the committed balances in order, and appends one block carrying
    /// the batch. Does nothing when the node is inactive or the pool is
    /// empty. Persisting the committed mapping afterwards is the
    /// caller's step, through [`Storage::encode`]; a failure there
    /// leaves this in-memory commit in place, to be persisted again by
    /// the next cycle.
    pub fn mine_block(&mut self)
        ensures
            !old(self).is_active ==> *final(self) == *old(self),
            old(self).pending_transactions@.len() == 0 ==> *final(self) == *old(self),
            old(self).is_active && old(self).pending_transactions@.len() > 0 ==> ({
                &&& final(self).storage@ == apply_txs(
                    old(self).storage@,
                    old(self).pending_transactions@,
                )
                &&& final(self).effective() == old(self).effective()
                &&& final(self).pending_transactions@.len() == 0
                &&& final(self).chain@.len() == old(self).chain@.len() + 1
                &&& final(self).chain@.drop_last() == old(self).chain@
                &&& final(self).chain@.last().transactions@ == old(self).pending_transactions@
                &&& final(self).chain@.last().prev_block_hash@ == link_of(old(self).chain@)
                &&& final(self).chain@.last().nonce == 0
                &&& final(self).is_active
                &&& final(self).block_time == old(self).block_time
            }),
    {
        if !self.is_active {
            return ;
        }
        if self.pending_transactions.len() == 0 {
            return ;
        }
        let mut transactions: Vec<Transaction> = Vec::new();
        core::mem::swap(&mut transactions, &mut self.pending_transactions);
        let ghost txs = transactions@;
        let n = transactions.len();
        let mut i: usize = 0;
        proof {
            assert(txs.take(0) =~= Seq::<Transaction>::empty());
        }
        while i < n
            invariant
                0 <= i <= n,
                n == txs.len(),
                transactions@ == txs,
                self.storage@ == apply_txs(old(self).storage@, txs.take(i as int)),
                self.pending_transactions@.len() == 0,
                self.chain == old(self).chain,
                self.is_active == old(self).is_active,
                self.block_time == old(self).block_time,
            decreases n - i,
        {
            apply_tx_exec(&mut self.storage, &transactions[i]);
            proof {
                assert(txs.take(i + 1).drop_last() =~= txs.take(i as int));
                assert(txs.take(i + 1).last() == txs[i as int]);
            }
            i = i + 1;
        }
        proof {
            assert(txs.take(n as int) =~= txs);
        }
        let prev_block_hash = self.get_last_block_hash();
        let new_block = Block::new(transactions, prev_block_hash);
        self.chain.push(new_block);
        proof {
            assert(self.chain@.drop_last() =~= old(self).chain@);
        }
    }
}

/// No transfer — applied or refused, even from an account to itself —
/// ever changes the total supply; only account creation mints.
pub proof fn lemma_transfer_preserves_supply(
    s: Seq<(Seq<char>, u64)>,
    from: Seq<char>,
    to: Seq<char>,
    amount: u64,
)
    ensures
        ssum(apply_transfer(s, from, to, amount)) == ssum(s),
{
    if transfer_ok(s, from, to, amount) {
        let fb = slookup(s, from).unwrap();
        let debited = supdate(s, from, (fb - amount) as u64);
        lemma_ssum_supdate(s, from, (fb - amount) as u64);
        lemma_ssum_supdate(debited, to, (lookup_or_zero(debited, to) + amount) as u64);
    }
}

/// A transfer that can apply moves exactly `amount` from the source to a
/// distinct destination, touches no other account's binding, and leaves
/// the total supply as it was.
pub proof fn lemma_transfer_moves_funds(
    s: Seq<(Seq<char>, u64)>,
    from: Seq<char>,
    to: Seq<char>,
    amount: u64,
)
    requires
        transfer_ok(s, from, to, amount),
        from != to,
    ensures
        slookup(apply_transfer(s, from, to, amount), from) == Some(
            (slookup(s, from).unwrap() - amount) as u64,
        ),
        slookup(apply_transfer(s, from, to, amount), to) == Some(
            (lookup_or_zero(s, to) + amount) as u64,
        ),
        forall|k: Seq<char>|
            k != from && k != to ==> #[trigger] slookup(apply_transfer(s, from, to, amount), k)
                == slookup(s, k),
        ssum(apply_transfer(s, from, to, amount)) == ssum(s),
{
    let fb = slookup(s, from).unwrap();
    let debited = supdate(s, from, (fb - amount) as u64);
    lemma_slookup_supdate_same(s, from, (fb - amount) as u64);
    lemma_slookup_supdate_other(s, from, (fb - amount) as u64, to);
    let tb = lookup_or_zero(debited, to);
    lemma_slookup_supdate_same(debited, to, (tb + amount) as u64);
    lemma_slookup_supdate_other(debited, to, (tb + amount) as u64, from);
    lemma_ssum_supdate(s, from, (fb - amount) as u64);
    lemma_ssum_supdate(debited, to, (tb + amount) as u64);
    assert forall|k: Seq<char>| k != from && k != to implies #[trigger] slookup(
        apply_transfer(s, from, to, amount),
        k,
    ) == slookup(s, k) by {
        lemma_slookup_supdate_other(s, from, (fb - amount) as u64, k);
        lemma_slookup_supdate_other(debited, to, (tb + amount) as u64, k);
    }
}

/// A transfer that cannot apply — unknown source, insufficient funds, or
/// an overflowing credit — leaves the balances exactly as they were.
pub proof fn lemma_failed_transfer_unchanged(
    s: Seq<(Seq<char>, u64)>,
    from: Seq<char>,
    to: Seq<char>,
    amount: u64,
)
    requires
        !transfer_ok(s, from, to, amount),
    ensures
        apply_transfer(s, from, to, amount) == s,
{
}

/// Creating a fresh account binds the identifier to its initial balance
/// and adds exactly that balance to the total supply: creation mints.
pub proof fn lemma_create_mints(s: Seq<(Seq<char>, u64)>, id: Seq<char>, balance: u64)
    requires
        slookup(s, id) is None,
    ensures
        slookup(apply_create(s, id, balance), id) == Some(balance),
        ssum(apply_create(s, id, balance)) == ssum(s) + balance,
{
    lemma_slookup_supdate_same(s, id, balance);
    lemma_ssum_supdate(s, id, balance);
}

/// Applies one operation to the balance mapping.
fn apply_tx_exec(storage: &mut Storage, t: &Transaction)
    ensures
        final(storage)@ == apply_tx(old(storage)@, *t),
{
    match t {
        Transaction::CreateAccount { id, balance } => {
            storage.set(id.as_str(), *balance);
        },
        Transaction::Transfer { from, to, amount } => {
            let from_balance = match storage.get(from.as_str()) {
                Some(v) => v,
                None => {
                    return ;
                },
            };
            if *amount > from_balance {
                return ;
            }
            let debited_balance = from_balance - *amount;
            let to_balance = if str_eq(from.as_str(), to.as_str()) {
                proof {
                    lemma_slookup_supdate_same(storage@, from@, debited_balance);
                }
                debited_balance
            } else {
                proof {
                    lemma_slookup_supdate_other(storage@, from@, debited_balance, to@);
                }
                match storage.get(to.as_str()) {
                    Some(v) => v,
                    None => 0,
                }
            };
            match to_balance.checked_add(*amount) {
                None => {
                    return ;
                },
                Some(credited) => {
                    storage.set(from.as_str(), debited_balance);
                    storage.set(to.as_str(), credited);
                },
            }
        },
    }
}

} // verus!
