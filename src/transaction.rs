use vstd::prelude::*;

use crate::client::ClientState;
use crate::index::{observed, with_status, DisputeIndex, DisputeStatus, IndexEntry};

verus! {

/// The five kinds of record that a client's history can hold.
#[derive(Clone, Copy, Debug, PartialEq, Eq, Structural)]
pub enum TransactionType {
    Deposit,
    Withdrawal,
    Dispute,
    Resolve,
    Chargeback,
}

/// One record of a client's history.
///
/// `amount` is present for deposits and withdrawals, in ten-thousandths of
/// a currency unit; disputes, resolves and chargebacks carry none and refer
/// to an earlier deposit or withdrawal through `tx`.
#[derive(Clone, Copy, Debug, PartialEq, Eq, Structural)]
pub struct Transaction {
    pub kind: TransactionType,
    pub client: u16,
    pub tx: u32,
    pub amount: Option<i64>,
}

impl Transaction {
    /// A well-formed record: a deposit or withdrawal carries a non-negative
    /// amount, a dispute, resolve or chargeback carries none.
    pub open spec fn wf(self) -> bool {
        match self.kind {
            TransactionType::Deposit | TransactionType::Withdrawal => match self.amount {
                Some(a) => a >= 0,
                None => false,
            },
            _ => self.amount is None,
        }
    }

    /// Whether this record is well formed; records that are not are to be
    /// refused before they reach an account.
    pub fn is_well_formed(&self) -> (r: bool)
        ensures
            r == self.wf(),
    {
        match self.kind {
            TransactionType::Deposit | TransactionType::Withdrawal => match self.amount {
                Some(a) => a >= 0,
                None => false,
            },
            _ => self.amount.is_none(),
        }
    }
}

/// Whether `x` is representable as an `i64`.
pub open spec fn fits(x: int) -> bool {
    i64::MIN <= x <= i64::MAX
}

/// Whether moving the three balances of `s` by the given amounts keeps each
/// of them representable.
pub open spec fn can_shift(s: ClientState, da: int, dh: int, dt: int) -> bool {
    fits(s.available + da) && fits(s.held + dh) && fits(s.total + dt)
}

/// `s` with its available, held and total balances moved by the given amounts.
pub open spec fn shifted(s: ClientState, da: int, dh: int, dt: int) -> ClientState {
    ClientState {
        available: (s.available + da) as i64,
        held: (s.held + dh) as i64,
        total: (s.total + dt) as i64,
        ..s
    }
}

/// What a dispute of the entry moves from available to held: a deposit's
/// amount, or a withdrawal's amount negated.
pub open spec fn held_delta(e: IndexEntry) -> int {
    if e.kind == TransactionType::Withdrawal {
        -e.amount
    } else {
        e.amount as int
    }
}

/// Whether the index holds `tx` with a dispute that may be opened.
pub open spec fn can_open(m: Map<u32, IndexEntry>, tx: u32) -> bool {
    m.contains_key(tx) && (m[tx].status == DisputeStatus::Undisputed || m[tx].status
        == DisputeStatus::Resolved)
}

/// Whether the index holds `tx` with an open dispute.
pub open spec fn is_open(m: Map<u32, IndexEntry>, tx: u32) -> bool {
    m.contains_key(tx) && m[tx].status == DisputeStatus::Disputed
}

/// The account state and the index after one record is applied to `s` with
/// index `m`. A record whose precondition fails, or whose effect would take a
/// balance out of the `i64` range, leaves the state as it was.
pub open spec fn step(s: ClientState, m: Map<u32, IndexEntry>, t: Transaction) -> (
    ClientState,
    Map<u32, IndexEntry>,
) {
    match t.kind {
        TransactionType::Deposit => match t.amount {
            Some(a) => (
                if can_shift(s, a as int, 0, a as int) {
                    shifted(s, a as int, 0, a as int)
                } else {
                    s
                },
                observed(m, t.tx, TransactionType::Deposit, a),
            ),
            None => (s, m),
        },
        TransactionType::Withdrawal => match t.amount {
            Some(a) => (
                if s.available >= a && can_shift(s, -a, 0, -a) {
                    shifted(s, -a, 0, -a)
                } else {
                    s
                },
                observed(m, t.tx, TransactionType::Withdrawal, a),
            ),
            None => (s, m),
        },
        TransactionType::Dispute => {
            let d = held_delta(m[t.tx]);
            if can_open(m, t.tx) && can_shift(s, -d, d, 0) {
                (shifted(s, -d, d, 0), with_status(m, t.tx, DisputeStatus::Disputed))
            } else {
                (s, m)
            }
        },
        TransactionType::Resolve => {
            let d = held_delta(m[t.tx]);
            if is_open(m, t.tx) && can_shift(s, d, -d, 0) {
                (shifted(s, d, -d, 0), with_status(m, t.tx, DisputeStatus::Resolved))
            } else {
                (s, m)
            }
        },
        TransactionType::Chargeback => {
            let d = held_delta(m[t.tx]);
            if is_open(m, t.tx) && can_shift(s, 0, -d, -d) {
                (
                    ClientState { locked: true, ..shifted(s, 0, -d, -d) },
                    with_status(m, t.tx, DisputeStatus::Chargedback),
                )
            } else {
                (s, m)
            }
        },
    }
}

/// `s` moved by the given amounts, or `None` where a balance would leave the
/// `i64` range.
fn shift(s: ClientState, da: i128, dh: i128, dt: i128) -> (r: Option<ClientState>)
    requires
        -0x1_0000_0000_0000_0000 <= da <= 0x1_0000_0000_0000_0000,
        -0x1_0000_0000_0000_0000 <= dh <= 0x1_0000_0000_0000_0000,
        -0x1_0000_0000_0000_0000 <= dt <= 0x1_0000_0000_0000_0000,
    ensures
        r == (if can_shift(s, da as int, dh as int, dt as int) {
            Some(shifted(s, da as int, dh as int, dt as int))
        } else {
            None::<ClientState>
        }),
{
    let lo = i64::MIN as i128;
    let hi = i64::MAX as i128;
    let available = s.available as i128 + da;
    let held = s.held as i128 + dh;
    let total = s.total as i128 + dt;
    if lo <= available && available <= hi && lo <= held && held <= hi && lo <= total && total
        <= hi {
        Some(
            ClientState {
                available: available as i64,
                held: held as i64,
                total: total as i64,
                ..s
            },
        )
    } else {
        None
    }
}

/// `held_delta` of an entry, computed.
fn entry_delta(e: &IndexEntry) -> (r: i128)
    ensures
        r == held_delta(*e),
{
    match e.kind {
        TransactionType::Withdrawal => -(e.amount as i128),
        _ => e.amount as i128,
    }
}

impl Transaction {
    /// Applies this record to `state`, reading and updating the client's
    /// dispute index.
    pub fn process(&self, state: ClientState, index: &mut DisputeIndex) -> (r: ClientState)
        ensures
            (r, final(index)@) == step(state, old(index)@, *self),
    {
        match self.kind {
            TransactionType::Deposit => self.process_deposit(state, index),
            TransactionType::Withdrawal => self.process_withdrawal(state, index),
            TransactionType::Dispute => self.process_dispute(state, index),
            TransactionType::Resolve => self.process_resolve(state, index),
            TransactionType::Chargeback => self.process_chargeback(state, index),
        }
    }

    fn process_deposit(&self, state: ClientState, index: &mut DisputeIndex) -> (r: ClientState)
        requires
            self.kind == TransactionType::Deposit,
        ensures
            (r, final(index)@) == step(state, old(index)@, *self),
    {
        match self.amount {
            Some(amount) => {
                index.observe(self.tx, TransactionType::Deposit, amount);
                match shift(state, amount as i128, 0, amount as i128) {
                    Some(next) => next,
                    None => state,
                }
            },
            None => state,
        }
    }

    fn process_withdrawal(&self, state: ClientState, index: &mut DisputeIndex) -> (r:
        ClientState)
        requires
            self.kind == TransactionType::Withdrawal,
        ensures
            (r, final(index)@) == step(state, old(index)@, *self),
    {
        match self.amount {
            Some(amount) => {
                index.observe(self.tx, TransactionType::Withdrawal, amount);
                if state.available >= amount {
                    match shift(state, -(amount as i128), 0, -(amount as i128)) {
                        Some(next) => next,
                        None => state,
                    }
                } else {
                    state
                }
            },
            None => state,
        }
    }

    fn process_dispute(&self, state: ClientState, index: &mut DisputeIndex) -> (r: ClientState)
        requires
            self.kind == TransactionType::Dispute,
        ensures
            (r, final(index)@) == step(state, old(index)@, *self),
    {
        match index.lookup(self.tx) {
            Some(entry) => {
                if entry.status == DisputeStatus::Undisputed || entry.status
                    == DisputeStatus::Resolved {
                    let d = entry_delta(&entry);
                    match shift(state, -d, d, 0) {
                        Some(next) => {
                            index.set_status(self.tx, DisputeStatus::Disputed);
                            next
                        },
                        None => state,
                    }
                } else {
                    state
                }
            },
            None => state,
        }
    }

    fn process_resolve(&self, state: ClientState, index: &mut DisputeIndex) -> (r: ClientState)
        requires
            self.kind == TransactionType::Resolve,
        ensures
            (r, final(index)@) == step(state, old(index)@, *self),
    {
        match index.lookup(self.tx) {
            Some(entry) => {
                if entry.status == DisputeStatus::Disputed {
                    let d = entry_delta(&entry);
                    match shift(state, d, -d, 0) {
                        Some(next) => {
                            index.set_status(self.tx, DisputeStatus::Resolved);
                            next
                        },
                        None => state,
                    }
                } else {
                    state
                }
            },
            None => state,
        }
    }

    fn process_chargeback(&self, state: ClientState, index: &mut DisputeIndex) -> (r:
        ClientState)
        requires
            self.kind == TransactionType::Chargeback,
        ensures
            (r, final(index)@) == step(state, old(index)@, *self),
    {
        match index.lookup(self.tx) {
            Some(entry) => {
                if entry.status == DisputeStatus::Disputed {
                    let d = entry_delta(&entry);
                    match shift(state, 0, -d, -d) {
                        Some(next) => {
                            index.set_status(self.tx, DisputeStatus::Chargedback);
                            ClientState { locked: true, ..next }
                        },
                        None => state,
                    }
                } else {
                    state
                }
            },
            None => state,
        }
    }
}

} // verus!
