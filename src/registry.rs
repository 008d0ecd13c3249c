use std::collections::HashMap;
use vstd::prelude::*;

use crate::client::{history_index, history_state, run, ClientState};
use crate::index::DisputeIndex;
use crate::transaction::Transaction;

verus! {

/// The running account of one client: its state and its dispute index.
struct Account {
    state: ClientState,
    index: DisputeIndex,
}

/// Groups an interleaved stream of records by client and folds each
/// client's records, in arrival order, into that client's account.
pub struct ClientRegistry {
    accounts: HashMap<u16, Account>,
    order: Vec<u16>,
    histories: Ghost<Map<u16, Seq<Transaction>>>,
}

/// `h` with `t` appended to the history of `t`'s client (a new client
/// starts from an empty history).
pub open spec fn grouped(h: Map<u16, Seq<Transaction>>, t: Transaction) -> Map<
    u16,
    Seq<Transaction>,
> {
    if h.contains_key(t.client) {
        h.insert(t.client, h[t.client].push(t))
    } else {
        h.insert(t.client, seq![t])
    }
}

/// The histories that a registry holds after the records `ts`, in order,
/// were added to an empty one.
pub open spec fn grouped_all(ts: Seq<Transaction>) -> Map<u16, Seq<Transaction>>
    decreases ts.len(),
{
    if ts.len() == 0 {
        Map::empty()
    } else {
        grouped(grouped_all(ts.drop_last()), ts.last())
    }
}

/// Grouping keeps arrival order: after a stream of records, the history of
/// each client seen is that client's records of the stream in stream order,
/// and a client not seen has no record in the stream.
pub proof fn lemma_grouping_keeps_order(ts: Seq<Transaction>, c: u16)
    ensures
        grouped_all(ts).contains_key(c) ==> grouped_all(ts)[c] == ts.filter(
            |t: Transaction| t.client == c,
        ),
        !grouped_all(ts).contains_key(c) ==> ts.filter(|t: Transaction| t.client == c).len() == 0,
    decreases ts.len(),
{
    reveal(Seq::filter);
    if ts.len() > 0 {
        lemma_grouping_keeps_order(ts.drop_last(), c);
        let t = ts.last();
        if t.client == c && !grouped_all(ts.drop_last()).contains_key(c) {
            assert(seq![t] =~= ts.drop_last().filter(|t: Transaction| t.client == c).push(t));
        }
    }
}

impl View for ClientRegistry {
    type V = Map<u16, Seq<Transaction>>;

    /// Each client seen so far, with its records in arrival order.
    closed spec fn view(&self) -> Map<u16, Seq<Transaction>> {
        self.histories@
    }
}

impl ClientRegistry {
    /// The clients seen so far, in the order of their first record.
    pub closed spec fn clients(&self) -> Seq<u16> {
        self.order@
    }

    /// Each seen client's account is its history folded into a fresh
    /// account, and `clients` lists the seen clients once each.
    pub closed spec fn wf(&self) -> bool {
        &&& self.order@.no_duplicates()
        &&& forall|c: u16| self.histories@.contains_key(c) <==> self.order@.contains(c)
        &&& forall|c: u16| self.histories@.contains_key(c) <==> self.accounts@.contains_key(c)
        &&& forall|c: u16| #[trigger]
            self.histories@.contains_key(c) ==> {
                &&& self.accounts@[c].state == history_state(c, self.histories@[c])
                &&& self.accounts@[c].index@ == history_index(c, self.histories@[c])
            }
    }

    /// A registry that has seen no record.
    pub fn new() -> (r: ClientRegistry)
        ensures
            r.wf(),
            r@ == Map::<u16, Seq<Transaction>>::empty(),
            r.clients() == Seq::<u16>::empty(),
    {
        ClientRegistry { accounts: HashMap::new(), order: Vec::new(), histories: Ghost(Map::empty()) }
    }

    /// Appends `t` to its client's history and applies it to that client's
    /// account; a client seen for the first time starts from a fresh account.
    pub fn add_record(&mut self, t: Transaction)
        requires
            old(self).wf(),
        ensures
            final(self).wf(),
            final(self)@ == grouped(old(self)@, t),
            final(self).clients() == (if old(self)@.contains_key(t.client) {
                old(self).clients()
            } else {
                old(self).clients().push(t.client)
            }),
    {
        let c = t.client;
        let ghost old_order = self.order@;
        let ghost known = self.histories@.contains_key(c);
        let ghost h = if known {
            self.histories@[c]
        } else {
            Seq::<Transaction>::empty()
        };
        let mut account = match self.accounts.remove(&c) {
            Some(a) => a,
            None => {
                self.order.push(c);
                Account { state: ClientState::new(c), index: DisputeIndex::new() }
            },
        };
        proof {
            assert(h.push(t).drop_last() =~= h);
            assert((account.state, account.index@) == run(ClientState::fresh(c), Map::empty(), h));
        }
        if !account.state.locked {
            account.state = t.process(account.state, &mut account.index);
        }
        proof {
            assert((account.state, account.index@) == run(
                ClientState::fresh(c),
                Map::empty(),
                h.push(t),
            ));
        }
        self.accounts.insert(c, account);
        self.histories = Ghost(self.histories@.insert(c, h.push(t)));
        proof {
            assert(seq![t] =~= Seq::<Transaction>::empty().push(t));
            assert forall|k: u16| self.histories@.contains_key(k) <==> self.order@.contains(k) by {
                if k == c {
                    if known {
                        assert(self.order@ == old_order);
                    } else {
                        assert(self.order@[old_order.len() as int] == c);
                    }
                } else if self.histories@.contains_key(k) {
                    assert(old_order.contains(k));
                    let j = choose|j: int| 0 <= j < old_order.len() && old_order[j] == k;
                    assert(self.order@[j] == k);
                } else if self.order@.contains(k) {
                    let j = choose|j: int| 0 <= j < self.order@.len() && self.order@[j] == k;
                    assert(old_order[j] == k);
                }
            }
            assert(self.order@.no_duplicates());
            assert forall|k: u16| #[trigger] self.histories@.contains_key(k) implies {
                &&& self.accounts@[k].state == history_state(k, self.histories@[k])
                &&& self.accounts@[k].index@ == history_index(k, self.histories@[k])
            } by {
                if k == c {
                    assert(self.histories@[k] == h.push(t));
                } else {
                    assert(old(self).histories@.contains_key(k));
                }
            }
        }
    }

    /// The current account state of `client`, if any record of it was seen.
    pub fn state_of(&self, client: u16) -> (r: Option<ClientState>)
        requires
            self.wf(),
        ensures
            r == (if self@.contains_key(client) {
                Some(history_state(client, self@[client]))
            } else {
                None::<ClientState>
            }),
    {
        match self.accounts.get(&client) {
            Some(a) => Some(a.state),
            None => None,
        }
    }

    /// The current account state of every client seen, in the order of
    /// their first record.
    pub fn states(&self) -> (r: Vec<ClientState>)
        requires
            self.wf(),
        ensures
            r@.len() == self.clients().len(),
            forall|i: int|
                0 <= i < r@.len() ==> #[trigger] r@[i] == history_state(
                    self.clients()[i],
                    self@[self.clients()[i]],
                ),
    {
        let mut r: Vec<ClientState> = Vec::new();
        let mut i: usize = 0;
        while i < self.order.len()
            invariant
                self.wf(),
                0 <= i <= self.order@.len(),
                r@.len() == i,
                forall|j: int|
                    0 <= j < i ==> #[trigger] r@[j] == history_state(
                        self.order@[j],
                        self.histories@[self.order@[j]],
                    ),
            decreases self.order@.len() - i,
        {
            let c = self.order[i];
            proof {
                assert(self.order@.contains(c));
            }
            match self.accounts.get(&c) {
                Some(a) => r.push(a.state),
                None => {},
            }
            i += 1;
        }
        r
    }
}

} // verus!
