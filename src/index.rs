use std::collections::HashMap;
use vstd::prelude::*;

use crate::transaction::TransactionType;

verus! {

/// Where a deposit or withdrawal stands in the dispute lifecycle.
#[derive(Clone, Copy, Debug, PartialEq, Eq, Structural)]
pub enum DisputeStatus {
    /// No dispute was ever opened.
    Undisputed,
    /// A dispute is open.
    Disputed,
    /// The last dispute was closed and the funds restored.
    Resolved,
    /// The dispute ended in a chargeback; this is final.
    Chargedback,
}

/// What the index remembers of an observed deposit or withdrawal.
#[derive(Clone, Copy, Debug, PartialEq, Eq, Structural)]
pub struct IndexEntry {
    pub amount: i64,
    pub kind: TransactionType,
    pub status: DisputeStatus,
}

/// The index after a deposit or withdrawal `tx` of `amount` was observed:
/// the first record of a transaction id is the one kept.
pub open spec fn observed(
    m: Map<u32, IndexEntry>,
    tx: u32,
    kind: TransactionType,
    amount: i64,
) -> Map<u32, IndexEntry> {
    if m.contains_key(tx) {
        m
    } else {
        m.insert(tx, IndexEntry { amount, kind, status: DisputeStatus::Undisputed })
    }
}

/// The index with the status of a known `tx` replaced.
pub open spec fn with_status(
    m: Map<u32, IndexEntry>,
    tx: u32,
    status: DisputeStatus,
) -> Map<u32, IndexEntry> {
    if m.contains_key(tx) {
        m.insert(tx, IndexEntry { status, ..m[tx] })
    } else {
        m
    }
}

/// Per-client map from transaction id to the deposit or withdrawal that
/// carried it and its dispute status, filled while the history is scanned.
pub struct DisputeIndex {
    entries: HashMap<u32, IndexEntry>,
}

impl View for DisputeIndex {
    type V = Map<u32, IndexEntry>;

    closed spec fn view(&self) -> Map<u32, IndexEntry> {
        self.entries@
    }
}

impl DisputeIndex {
    /// An index that has observed nothing.
    pub fn new() -> (r: DisputeIndex)
        ensures
            r@ == Map::<u32, IndexEntry>::empty(),
    {
        DisputeIndex { entries: HashMap::new() }
    }

    /// Records a deposit or withdrawal; a transaction id already known keeps
    /// its first entry.
    pub fn observe(&mut self, tx: u32, kind: TransactionType, amount: i64)
        ensures
            final(self)@ == observed(old(self)@, tx, kind, amount),
    {
        if !self.entries.contains_key(&tx) {
            self.entries.insert(tx, IndexEntry { amount, kind, status: DisputeStatus::Undisputed });
        }
    }

    /// The entry of `tx`, if it was observed.
    pub fn lookup(&self, tx: u32) -> (r: Option<IndexEntry>)
        ensures
            r == (if self@.contains_key(tx) {
                Some(self@[tx])
            } else {
                None::<IndexEntry>
            }),
    {
        match self.entries.get(&tx) {
            Some(e) => Some(*e),
            None => None,
        }
    }

    /// Moves an observed `tx` to `status`; an unknown one is left out.
    pub fn set_status(&mut self, tx: u32, status: DisputeStatus)
        ensures
            final(self)@ == with_status(old(self)@, tx, status),
    {
        match self.entries.get(&tx) {
            Some(e) => {
                let entry = IndexEntry { status, ..*e };
                self.entries.insert(tx, entry);
            },
            None => {},
        }
    }
}

impl Default for DisputeIndex {
    fn default() -> (r: DisputeIndex)
        ensures
            r@ == Map::<u32, IndexEntry>::empty(),
    {
        DisputeIndex::new()
    }
}

} // verus!
