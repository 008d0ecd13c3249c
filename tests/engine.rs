use payments::client::{calc_state, Client, ClientState};
use payments::index::{DisputeIndex, DisputeStatus, IndexEntry};
use payments::transaction::{Transaction, TransactionType};

// Amounts are in ten-thousandths of a currency unit.

fn deposit(tx: u32, amount: i64) -> Transaction {
    Transaction { kind: TransactionType::Deposit, client: 0, tx, amount: Some(amount) }
}

fn withdrawal(tx: u32, amount: i64) -> Transaction {
    Transaction { kind: TransactionType::Withdrawal, client: 0, tx, amount: Some(amount) }
}

fn dispute(tx: u32) -> Transaction {
    Transaction { kind: TransactionType::Dispute, client: 0, tx, amount: None }
}

fn resolve(tx: u32) -> Transaction {
    Transaction { kind: TransactionType::Resolve, client: 0, tx, amount: None }
}

fn chargeback(tx: u32) -> Transaction {
    Transaction { kind: TransactionType::Chargeback, client: 0, tx, amount: None }
}

fn state(available: i64, held: i64, total: i64, locked: bool) -> ClientState {
    ClientState { id: 0, available, held, total, locked }
}

#[test]
fn test_deposit_withdrawl_ok() {
    let transactions = vec![deposit(1, 50000), withdrawal(2, 35000)];
    assert_eq!(calc_state(&transactions), state(15000, 0, 15000, false));
}

#[test]
fn test_deposit_dispute_ok() {
    let transactions = vec![deposit(1, 100000), dispute(1)];
    assert_eq!(calc_state(&transactions), state(0, 100000, 100000, false));
}

#[test]
fn test_deposit_dispute_no_match() {
    let transactions = vec![deposit(1, 100000), dispute(2)];
    assert_eq!(calc_state(&transactions), state(100000, 0, 100000, false));
}

#[test]
fn test_deposit_dispute_resolve_ok() {
    let transactions = vec![deposit(1, 100000), dispute(1), resolve(1)];
    assert_eq!(calc_state(&transactions), state(100000, 0, 100000, false));
}

#[test]
fn test_deposit_dispute_chargeback_ok() {
    let transactions = vec![deposit(1, 100000), dispute(1), chargeback(1)];
    assert_eq!(calc_state(&transactions), state(0, 0, 0, true));
}

#[test]
fn test_withdraw_dispute_ok() {
    let transactions = vec![deposit(1, 100000), withdrawal(2, 50000), dispute(2)];
    assert_eq!(calc_state(&transactions), state(100000, -50000, 50000, false));
}

#[test]
fn test_withdraw_dispute_resolve_ok() {
    let transactions = vec![deposit(1, 100000), withdrawal(2, 50000), dispute(2), resolve(2)];
    assert_eq!(calc_state(&transactions), state(50000, 0, 50000, false));
}

#[test]
fn test_withdraw_dispute_chargeback_ok() {
    let transactions = vec![deposit(1, 100000), withdrawal(2, 50000), dispute(2), chargeback(2)];
    assert_eq!(calc_state(&transactions), state(100000, 0, 100000, true));
}

#[test]
fn test_ignore_dispute_before_transaction() {
    let transactions = vec![dispute(1), deposit(1, 150000)];
    assert_eq!(calc_state(&transactions), state(150000, 0, 150000, false));
}

#[test]
fn test_ignore_resolve_before_dispute() {
    let transactions = vec![deposit(1, 100000), resolve(1), dispute(1)];
    assert_eq!(calc_state(&transactions), state(0, 100000, 100000, false));
}

#[test]
fn test_ignore_chargeback_before_dispute() {
    let transactions = vec![deposit(1, 100000), chargeback(1), dispute(1)];
    assert_eq!(calc_state(&transactions), state(0, 100000, 100000, false));
}

#[test]
fn test_ignore_resolve_after_chargeback() {
    let transactions = vec![deposit(1, 100000), dispute(1), chargeback(1), resolve(1)];
    assert_eq!(calc_state(&transactions), state(0, 0, 0, true));
}

#[test]
fn test_ignore_chargeback_after_resolve() {
    let transactions = vec![deposit(1, 100000), dispute(1), resolve(1), chargeback(1)];
    assert_eq!(calc_state(&transactions), state(100000, 0, 100000, false));
}

#[test]
fn test_ignore_after_chargeback() {
    let transactions = vec![deposit(1, 100000), withdrawal(2, 50000), dispute(2), chargeback(2), deposit(3, 200000), withdrawal(4, 15000)];
    assert_eq!(calc_state(&transactions), state(100000, 0, 100000, true));
}

#[test]
fn scenario_locked_after_deposit_chargeback() {
    let transactions = vec![deposit(1, 100000), dispute(1), chargeback(1), deposit(2, 200000), withdrawal(3, 15000)];
    assert_eq!(calc_state(&transactions), state(0, 0, 0, true));
}

#[test]
fn resolved_dispute_can_be_reopened() {
    let transactions = vec![deposit(1, 100000), dispute(1), resolve(1), dispute(1)];
    assert_eq!(calc_state(&transactions), state(0, 100000, 100000, false));
}

#[test]
fn second_dispute_while_open_is_ignored() {
    let transactions = vec![deposit(1, 100000), dispute(1), dispute(1)];
    assert_eq!(calc_state(&transactions), state(0, 100000, 100000, false));
}

#[test]
fn withdrawal_beyond_available_is_ignored() {
    let transactions = vec![deposit(1, 10000), withdrawal(2, 10001)];
    assert_eq!(calc_state(&transactions), state(10000, 0, 10000, false));
}

#[test]
fn withdrawal_of_everything_is_applied() {
    let transactions = vec![deposit(1, 10000), withdrawal(2, 10000)];
    assert_eq!(calc_state(&transactions), state(0, 0, 0, false));
}

#[test]
fn dispute_of_withdrawal_is_a_negative_hold_until_resolved() {
    let transactions = vec![deposit(1, 100000), withdrawal(2, 30000), dispute(2), resolve(2), dispute(2)];
    assert_eq!(calc_state(&transactions), state(100000, -30000, 70000, false));
}

#[test]
fn conservation_holds_after_every_prefix() {
    let transactions = vec![
        deposit(1, 100000),
        withdrawal(2, 40000),
        dispute(2),
        dispute(1),
        resolve(2),
        deposit(3, 5),
        chargeback(1),
        deposit(4, 7),
    ];
    for k in 0..=transactions.len() {
        let s = calc_state(&transactions[..k]);
        assert_eq!(s.total, s.available + s.held);
    }
}

#[test]
fn lock_freezes_the_balances() {
    let transactions = vec![
        deposit(1, 100000),
        dispute(1),
        chargeback(1),
        deposit(2, 5),
        withdrawal(3, 1),
        dispute(2),
    ];
    let at_lock = calc_state(&transactions[..3]);
    assert!(at_lock.locked);
    for k in 3..=transactions.len() {
        assert_eq!(calc_state(&transactions[..k]), at_lock);
    }
}

#[test]
fn forward_reference_is_ignored_for_every_kind() {
    for first in [dispute(9), resolve(9), chargeback(9)] {
        let transactions = vec![deposit(1, 100000), first, deposit(9, 20000), dispute(9)];
        assert_eq!(calc_state(&transactions[..2]), calc_state(&transactions[..1]));
        assert_eq!(calc_state(&transactions), state(100000, 20000, 120000, false));
    }
}

#[test]
fn close_without_open_dispute_is_ignored() {
    let transactions = vec![deposit(1, 100000), resolve(1), chargeback(1)];
    assert_eq!(calc_state(&transactions), state(100000, 0, 100000, false));
}

#[test]
fn empty_history_is_a_fresh_account() {
    assert_eq!(calc_state(&[]), ClientState::default());
    assert_eq!(ClientState::new(3), ClientState { id: 3, available: 0, held: 0, total: 0, locked: false });
}

#[test]
fn deposit_past_the_largest_balance_is_ignored() {
    let transactions = vec![deposit(1, i64::MAX), deposit(2, 1), withdrawal(3, 1)];
    assert_eq!(calc_state(&transactions), state(i64::MAX - 1, 0, i64::MAX - 1, false));
}

#[test]
fn client_state_carries_the_client_id() {
    let mut client = Client::new(7);
    let mut t = deposit(1, 25000);
    t.client = 7;
    client.add_transaction(t);
    assert_eq!(client.transactions.len(), 1);
    let s = client.calculate_state();
    assert_eq!(s, ClientState { id: 7, available: 25000, held: 0, total: 25000, locked: false });
    let replaced = Client::new(7).with_transactions(vec![t, t]);
    assert_eq!(replaced.id, 7);
    assert_eq!(replaced.calculate_state().total, 50000);
    assert_eq!(calc_state(&[t]).id, 7);
}

#[test]
fn process_updates_the_index() {
    let mut index = DisputeIndex::new();
    let s = deposit(5, 30000).process(ClientState::new(0), &mut index);
    assert_eq!(
        index.lookup(5),
        Some(IndexEntry { amount: 30000, kind: TransactionType::Deposit, status: DisputeStatus::Undisputed })
    );
    let s = dispute(5).process(s, &mut index);
    assert_eq!(s, state(0, 30000, 30000, false));
    assert_eq!(index.lookup(5).map(|e| e.status), Some(DisputeStatus::Disputed));
    assert_eq!(index.lookup(6), None);
}

#[test]
fn index_keeps_the_first_record_of_an_id() {
    let mut index = DisputeIndex::default();
    index.observe(1, TransactionType::Deposit, 10);
    index.observe(1, TransactionType::Withdrawal, 20);
    index.set_status(2, DisputeStatus::Disputed);
    assert_eq!(index.lookup(2), None);
    index.set_status(1, DisputeStatus::Resolved);
    assert_eq!(
        index.lookup(1),
        Some(IndexEntry { amount: 10, kind: TransactionType::Deposit, status: DisputeStatus::Resolved })
    );
}

#[test]
fn well_formed_records_carry_an_amount_only_when_they_move_funds() {
    assert!(deposit(1, 0).is_well_formed());
    assert!(withdrawal(1, 5).is_well_formed());
    assert!(dispute(1).is_well_formed());
    assert!(!deposit(1, -1).is_well_formed());
    let mut missing = withdrawal(1, 5);
    missing.amount = None;
    assert!(!missing.is_well_formed());
    let mut extra = chargeback(1);
    extra.amount = Some(5);
    assert!(!extra.is_well_formed());
}
