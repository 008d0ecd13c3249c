use vstd::prelude::*;

use crate::index::{DisputeIndex, IndexEntry};
use crate::transaction::{is_open, step, Transaction, TransactionType};

verus! {

/// The balances of one client's account.
///
/// All three balances are in ten-thousandths of a currency unit; `held`
/// goes below zero while a withdrawal is under dispute.
#[derive(Clone, Copy, Debug, PartialEq, Eq, Structural)]
pub struct ClientState {
    pub id: u16,
    pub available: i64,
    pub held: i64,
    pub total: i64,
    pub locked: bool,
}

impl ClientState {
    /// The account of `id` before any transaction: all zero, not locked.
    pub open spec fn fresh(id: u16) -> ClientState {
        ClientState { id, available: 0, held: 0, total: 0, locked: false }
    }

    /// The conservation law: the total is what is available plus what is held.
    pub open spec fn balanced(self) -> bool {
        self.total == self.available + self.held
    }

    pub fn new(id: u16) -> (r: ClientState)
        ensures
            r == ClientState::fresh(id),
    {
        ClientState { id, available: 0, held: 0, total: 0, locked: false }
    }
}

impl Default for ClientState {
    fn default() -> (r: ClientState)
        ensures
            r == ClientState::fresh(0),
    {
        ClientState::new(0)
    }
}

/// The account state and dispute index after the records of `ts`, in
/// order, are applied to `s` with index `m`. Once the account is locked the
/// records that remain are skipped.
pub open spec fn run(s: ClientState, m: Map<u32, IndexEntry>, ts: Seq<Transaction>) -> (
    ClientState,
    Map<u32, IndexEntry>,
)
    decreases ts.len(),
{
    if ts.len() == 0 {
        (s, m)
    } else {
        let prev = run(s, m, ts.drop_last());
        if prev.0.locked {
            prev
        } else {
            step(prev.0, prev.1, ts.last())
        }
    }
}

/// The account state of client `id` after its history `ts`.
pub open spec fn history_state(id: u16, ts: Seq<Transaction>) -> ClientState {
    run(ClientState::fresh(id), Map::empty(), ts).0
}

/// The dispute index of client `id` after its history `ts`.
pub open spec fn history_index(id: u16, ts: Seq<Transaction>) -> Map<u32, IndexEntry> {
    run(ClientState::fresh(id), Map::empty(), ts).1
}

/// The client whose history `ts` is, read from its first record (0 for an
/// empty history).
pub open spec fn history_id(ts: Seq<Transaction>) -> u16 {
    if ts.len() > 0 {
        ts[0].client
    } else {
        0
    }
}

/// Whether `t` is a deposit or a withdrawal of transaction id `tx`.
pub open spec fn moves_funds(t: Transaction, tx: u32) -> bool {
    (t.kind == TransactionType::Deposit || t.kind == TransactionType::Withdrawal) && t.tx == tx
}

/// A client's history: its id and its records in arrival order.
#[derive(Debug)]
pub struct Client {
    pub id: u16,
    pub transactions: Vec<Transaction>,
}

impl Client {
    pub fn new(id: u16) -> (r: Client)
        ensures
            r.id == id,
            r.transactions@ == Seq::<Transaction>::empty(),
    {
        Client { id, transactions: Vec::new() }
    }

    /// This client with its history replaced by `transactions`.
    pub fn with_transactions(self, transactions: Vec<Transaction>) -> (r: Client)
        ensures
            r.id == self.id,
            r.transactions@ == transactions@,
    {
        Client { id: self.id, transactions }
    }

    /// Appends a record to the history.
    pub fn add_transaction(&mut self, transaction: Transaction)
        ensures
            final(self).id == old(self).id,
            final(self).transactions@ == old(self).transactions@.push(transaction),
    {
        self.transactions.push(transaction);
    }

    /// The account state after the whole history.
    pub fn calculate_state(&self) -> (r: ClientState)
        ensures
            r == history_state(self.id, self.transactions@),
    {
        replay(self.id, self.transactions.as_slice())
    }
}

/// The account state after `transactions`, for the client named by the
/// first record.
pub fn calc_state(transactions: &[Transaction]) -> (r: ClientState)
    ensures
        r == history_state(history_id(transactions@), transactions@),
{
    let id: u16 = if transactions.len() > 0 {
        transactions[0].client
    } else {
        0
    };
    replay(id, transactions)
}

/// Folds `transactions` into a fresh account of `id` with a fresh index,
/// stopping once the account is locked.
fn replay(id: u16, transactions: &[Transaction]) -> (r: ClientState)
    ensures
        r == history_state(id, transactions@),
{
    let mut state = ClientState::new(id);
    let mut index = DisputeIndex::new();
    let mut i: usize = 0;
    while i < transactions.len() && !state.locked
        invariant
            0 <= i <= transactions.len(),
            (state, index@) == run(ClientState::fresh(id), Map::empty(), transactions@.take(
                i as int,
            )),
        decreases transactions.len() - i,
    {
        proof {
            assert(transactions@.take(i + 1).drop_last() =~= transactions@.take(i as int));
        }
        state = transactions[i].process(state, &mut index);
        i += 1;
    }
    proof {
        if i < transactions.len() {
            lemma_locked_stays(
                ClientState::fresh(id),
                Map::empty(),
                transactions@,
                i as int,
                transactions@.len() as int,
            );
        }
        assert(transactions@.take(transactions@.len() as int) =~= transactions@);
    }
    state
}

/// Once a prefix leaves the account locked, longer prefixes leave the same
/// state and index.
proof fn lemma_locked_stays(
    s: ClientState,
    m: Map<u32, IndexEntry>,
    ts: Seq<Transaction>,
    j: int,
    k: int,
)
    requires
        0 <= j <= k <= ts.len(),
        run(s, m, ts.take(j)).0.locked,
    ensures
        run(s, m, ts.take(k)) == run(s, m, ts.take(j)),
    decreases k - j,
{
    if k > j {
        lemma_locked_stays(s, m, ts, j, k - 1);
        assert(ts.take(k).drop_last() =~= ts.take(k - 1));
    }
}

/// One record keeps the conservation law.
proof fn lemma_step_balanced(s: ClientState, m: Map<u32, IndexEntry>, t: Transaction)
    requires
        s.balanced(),
    ensures
        step(s, m, t).0.balanced(),
{
}

/// Folding records keeps the conservation law.
proof fn lemma_run_balanced(s: ClientState, m: Map<u32, IndexEntry>, ts: Seq<Transaction>)
    requires
        s.balanced(),
    ensures
        run(s, m, ts).0.balanced(),
    decreases ts.len(),
{
    if ts.len() > 0 {
        lemma_run_balanced(s, m, ts.drop_last());
        let prev = run(s, m, ts.drop_last());
        lemma_step_balanced(prev.0, prev.1, ts.last());
    }
}

/// Conservation: after every prefix of a client's history the total equals
/// the available balance plus the held balance.
pub proof fn lemma_conservation(id: u16, ts: Seq<Transaction>, k: int)
    requires
        0 <= k <= ts.len(),
    ensures
        history_state(id, ts.take(k)).balanced(),
{
    lemma_run_balanced(ClientState::fresh(id), Map::empty(), ts.take(k));
}

/// Monotonic lock: once a prefix of a client's history leaves the account
/// locked, no later record changes its state, so the balances stay as they
/// are and the account stays locked.
pub proof fn lemma_lock_is_final(id: u16, ts: Seq<Transaction>, j: int, k: int)
    requires
        0 <= j <= k <= ts.len(),
        history_state(id, ts.take(j)).locked,
    ensures
        history_state(id, ts.take(k)) == history_state(id, ts.take(j)),
        history_state(id, ts.take(k)).locked,
{
    lemma_locked_stays(ClientState::fresh(id), Map::empty(), ts, j, k);
}

/// The index holds only transaction ids of deposits and withdrawals that
/// were folded in.
proof fn lemma_index_holds_seen(
    s: ClientState,
    m: Map<u32, IndexEntry>,
    ts: Seq<Transaction>,
    tx: u32,
)
    requires
        !m.contains_key(tx),
        forall|i: int| 0 <= i < ts.len() ==> !moves_funds(#[trigger] ts[i], tx),
    ensures
        !run(s, m, ts).1.contains_key(tx),
    decreases ts.len(),
{
    if ts.len() > 0 {
        let pre = ts.drop_last();
        assert forall|i: int| 0 <= i < pre.len() implies !moves_funds(#[trigger] pre[i], tx) by {
            assert(pre[i] == ts[i]);
        }
        lemma_index_holds_seen(s, m, pre, tx);
        assert(!moves_funds(ts[ts.len() - 1], tx));
    }
}

/// The state and index after the prefix of length `k + 1`, in terms of the
/// prefix of length `k`.
proof fn lemma_run_next(id: u16, ts: Seq<Transaction>, k: int)
    requires
        0 <= k < ts.len(),
    ensures
        run(ClientState::fresh(id), Map::empty(), ts.take(k + 1)) == (if history_state(
            id,
            ts.take(k),
        ).locked {
            run(ClientState::fresh(id), Map::empty(), ts.take(k))
        } else {
            step(history_state(id, ts.take(k)), history_index(id, ts.take(k)), ts[k])
        }),
{
    assert(ts.take(k + 1).drop_last() =~= ts.take(k));
}

/// Forward references: a dispute, resolve or chargeback whose transaction
/// id belongs to no earlier deposit or withdrawal of the same history
/// changes nothing, whatever comes after it.
pub proof fn lemma_forward_reference_ignored(id: u16, ts: Seq<Transaction>, k: int)
    requires
        0 <= k < ts.len(),
        ts[k].kind == TransactionType::Dispute || ts[k].kind == TransactionType::Resolve
            || ts[k].kind == TransactionType::Chargeback,
        forall|i: int| 0 <= i < k ==> !moves_funds(#[trigger] ts[i], ts[k].tx),
    ensures
        history_state(id, ts.take(k + 1)) == history_state(id, ts.take(k)),
        history_index(id, ts.take(k + 1)) == history_index(id, ts.take(k)),
{
    let pre = ts.take(k);
    assert forall|i: int| 0 <= i < pre.len() implies !moves_funds(#[trigger] pre[i], ts[k].tx) by {
        assert(pre[i] == ts[i]);
    }
    lemma_index_holds_seen(ClientState::fresh(id), Map::empty(), pre, ts[k].tx);
    lemma_run_next(id, ts, k);
}

/// No open dispute: a resolve or chargeback of a transaction id that has no
/// open dispute at that point of the history changes nothing.
pub proof fn lemma_close_without_dispute_ignored(id: u16, ts: Seq<Transaction>, k: int)
    requires
        0 <= k < ts.len(),
        ts[k].kind == TransactionType::Resolve || ts[k].kind == TransactionType::Chargeback,
        !is_open(history_index(id, ts.take(k)), ts[k].tx),
    ensures
        history_state(id, ts.take(k + 1)) == history_state(id, ts.take(k)),
        history_index(id, ts.take(k + 1)) == history_index(id, ts.take(k)),
{
    lemma_run_next(id, ts, k);
}

} // verus!
