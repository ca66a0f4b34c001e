//! End-to-end scenarios of the money engines on the store, with literal
//! amounts in minor units (100.00 is 10000).

use bank_core::bank::Bank;
use bank_core::errors::ErrorCode;
use bank_core::model::{AccountType, TxKind};
use bank_core::oid::DocId;

fn hex_id(id: &DocId) -> String {
    format!("{:08x}{:016x}", id.hi, id.lo)
}

/// A well-formed id that no store-created account carries.
const AGENT_FLOAT: &str = "ffffffffffffffffffffffff";

#[test]
fn scenario_agent_deposit_funds_account() {
    let mut bank = Bank::new();
    let u1 = bank
        .create_user(&"u1@example.com".to_string(), &"secret".to_string())
        .unwrap();
    let a1 = bank
        .create_account(&u1.uuid, AccountType::Checking, "main", 1_000)
        .unwrap();
    let a1_hex = hex_id(&a1);

    let r = bank.make_deposit(AGENT_FLOAT, &a1_hex, 10000, true, 2_000);
    assert_eq!(r, Ok(()));
    assert_eq!(bank.read_balance(&a1_hex), Ok(10000));

    let history = bank.get_transaction_history(&a1_hex).unwrap();
    assert_eq!(history.len(), 1);
    assert_eq!(history[0].kind, TxKind::Deposit);
    assert_eq!(history[0].amount, 10000);
    assert_eq!(history[0].from_account, None);
    assert_eq!(history[0].to_account, Some(a1));
}

#[test]
fn scenario_transfer_between_accounts() {
    let mut bank = Bank::new();
    let u1 = bank
        .create_user(&"u1@example.com".to_string(), &"secret".to_string())
        .unwrap();
    let a1 = bank
        .create_account(&u1.uuid, AccountType::Checking, "main", 1_000)
        .unwrap();
    let a2 = bank
        .create_account(&u1.uuid, AccountType::Savings, "spare", 1_100)
        .unwrap();
    let a1_hex = hex_id(&a1);
    let a2_hex = hex_id(&a2);
    bank.make_deposit(AGENT_FLOAT, &a1_hex, 10000, true, 2_000).unwrap();

    let r = bank.make_deposit(&a1_hex, &a2_hex, 4000, false, 3_000);
    assert_eq!(r, Ok(()));
    assert_eq!(bank.read_balance(&a1_hex), Ok(6000));
    assert_eq!(bank.read_balance(&a2_hex), Ok(4000));

    let history = bank.get_transaction_history(&a1_hex).unwrap();
    assert_eq!(history.len(), 2);
    assert_eq!(history[0].kind, TxKind::Deposit);
    assert_eq!(history[0].amount, 4000);
    assert_eq!(history[0].from_account, Some(a1));
    assert_eq!(history[0].to_account, Some(a2));
    assert_eq!(history[1].kind, TxKind::Deposit);
    assert_eq!(history[1].amount, 10000);
}

#[test]
fn scenario_withdrawal_over_balance_fails() {
    let mut bank = Bank::new();
    let u1 = bank
        .create_user(&"u1@example.com".to_string(), &"secret".to_string())
        .unwrap();
    let a1 = bank
        .create_account(&u1.uuid, AccountType::Checking, "main", 1_000)
        .unwrap();
    let a1_hex = hex_id(&a1);
    bank.make_deposit(AGENT_FLOAT, &a1_hex, 6000, true, 2_000).unwrap();

    let before = bank.get_transaction_history(&a1_hex).unwrap();
    let r = bank.make_withdrawal(&a1_hex, 9000, 3_000);
    assert_eq!(r, Err(ErrorCode::FailedPrecondition));
    assert_eq!(bank.read_balance(&a1_hex), Ok(6000));
    let after = bank.get_transaction_history(&a1_hex).unwrap();
    assert_eq!(before, after);
}

#[test]
fn scenario_withdrawal_to_zero() {
    let mut bank = Bank::new();
    let u1 = bank
        .create_user(&"u1@example.com".to_string(), &"secret".to_string())
        .unwrap();
    let a1 = bank
        .create_account(&u1.uuid, AccountType::Checking, "main", 1_000)
        .unwrap();
    let a1_hex = hex_id(&a1);
    bank.make_deposit(AGENT_FLOAT, &a1_hex, 6000, true, 2_000).unwrap();

    let r = bank.make_withdrawal(&a1_hex, 6000, 3_000);
    let tx_id = r.unwrap();
    assert!(tx_id >= 1);
    assert_eq!(bank.read_balance(&a1_hex), Ok(0));
    let history = bank.get_transaction_history(&a1_hex).unwrap();
    assert_eq!(history[0].kind, TxKind::Withdrawal);
    assert_eq!(history[0].amount, 6000);
    assert_eq!(history[0].id, tx_id);
    assert_eq!(history[0].from_account, Some(a1));
    assert_eq!(history[0].to_account, None);
}

#[test]
fn scenario_competing_withdrawals_one_wins() {
    let mut bank = Bank::new();
    let u1 = bank
        .create_user(&"u1@example.com".to_string(), &"secret".to_string())
        .unwrap();
    let a1 = bank
        .create_account(&u1.uuid, AccountType::Checking, "main", 1_000)
        .unwrap();
    let a1_hex = hex_id(&a1);
    bank.make_deposit(AGENT_FLOAT, &a1_hex, 6000, true, 2_000).unwrap();

    // The store serializes the two debits; whichever runs second sees
    // the remaining 1000 and fails its precondition.
    let first = bank.make_withdrawal(&a1_hex, 5000, 3_000);
    let second = bank.make_withdrawal(&a1_hex, 5000, 3_000);
    assert!(first.is_ok());
    assert_eq!(second, Err(ErrorCode::FailedPrecondition));
    assert_eq!(bank.read_balance(&a1_hex), Ok(1000));
    let withdrawals = bank
        .get_transaction_history(&a1_hex)
        .unwrap()
        .iter()
        .filter(|t| t.kind == TxKind::Withdrawal)
        .count();
    assert_eq!(withdrawals, 1);
}

#[test]
fn transfer_conserves_total() {
    let mut bank = Bank::new();
    let u1 = bank
        .create_user(&"u1@example.com".to_string(), &"secret".to_string())
        .unwrap();
    let a1 = bank
        .create_account(&u1.uuid, AccountType::Checking, "main", 1_000)
        .unwrap();
    let a2 = bank
        .create_account(&u1.uuid, AccountType::Checking, "other", 1_000)
        .unwrap();
    let a1_hex = hex_id(&a1);
    let a2_hex = hex_id(&a2);
    bank.make_deposit(AGENT_FLOAT, &a1_hex, 7500, true, 2_000).unwrap();
    bank.make_deposit(AGENT_FLOAT, &a2_hex, 2500, true, 2_100).unwrap();

    let total_before =
        bank.read_balance(&a1_hex).unwrap() + bank.read_balance(&a2_hex).unwrap();
    bank.make_deposit(&a1_hex, &a2_hex, 3600, false, 3_000).unwrap();
    let total_after =
        bank.read_balance(&a1_hex).unwrap() + bank.read_balance(&a2_hex).unwrap();
    assert_eq!(total_before, total_after);
    assert_eq!(bank.read_balance(&a1_hex), Ok(3900));
    assert_eq!(bank.read_balance(&a2_hex), Ok(6100));
}

#[test]
fn agent_deposit_touches_only_destination() {
    let mut bank = Bank::new();
    let u1 = bank
        .create_user(&"u1@example.com".to_string(), &"secret".to_string())
        .unwrap();
    let a1 = bank
        .create_account(&u1.uuid, AccountType::Checking, "main", 1_000)
        .unwrap();
    let a2 = bank
        .create_account(&u1.uuid, AccountType::Checking, "other", 1_000)
        .unwrap();
    let a1_hex = hex_id(&a1);
    let a2_hex = hex_id(&a2);
    bank.make_deposit(AGENT_FLOAT, &a1_hex, 500, true, 2_000).unwrap();

    bank.make_deposit(AGENT_FLOAT, &a2_hex, 800, true, 3_000).unwrap();
    assert_eq!(bank.read_balance(&a2_hex), Ok(800));
    assert_eq!(bank.read_balance(&a1_hex), Ok(500));
}

#[test]
fn balance_equals_ledger_credits_minus_debits() {
    let mut bank = Bank::new();
    let u1 = bank
        .create_user(&"u1@example.com".to_string(), &"secret".to_string())
        .unwrap();
    let a1 = bank
        .create_account(&u1.uuid, AccountType::Checking, "main", 1_000)
        .unwrap();
    let a2 = bank
        .create_account(&u1.uuid, AccountType::Checking, "other", 1_000)
        .unwrap();
    let a1_hex = hex_id(&a1);
    let a2_hex = hex_id(&a2);
    bank.make_deposit(AGENT_FLOAT, &a1_hex, 10000, true, 2_000).unwrap();
    bank.make_deposit(&a1_hex, &a2_hex, 2500, false, 3_000).unwrap();
    bank.make_withdrawal(&a1_hex, 1200, 4_000).unwrap();

    let history = bank.get_transaction_history(&a1_hex).unwrap();
    let credits: u64 = history
        .iter()
        .filter(|t| t.to_account == Some(a1))
        .map(|t| t.amount)
        .sum();
    let debits: u64 = history
        .iter()
        .filter(|t| t.from_account == Some(a1))
        .map(|t| t.amount)
        .sum();
    assert_eq!(bank.read_balance(&a1_hex).unwrap(), credits - debits);
    assert_eq!(bank.read_balance(&a1_hex), Ok(6300));
}

#[test]
fn history_is_newest_first_with_id_tiebreak() {
    let mut bank = Bank::new();
    let u1 = bank
        .create_user(&"u1@example.com".to_string(), &"secret".to_string())
        .unwrap();
    let a1 = bank
        .create_account(&u1.uuid, AccountType::Checking, "main", 1_000)
        .unwrap();
    let a1_hex = hex_id(&a1);
    bank.make_deposit(AGENT_FLOAT, &a1_hex, 100, true, 2_000).unwrap();
    // Two commits asked for at the same instant: the ids break the tie.
    bank.make_deposit(AGENT_FLOAT, &a1_hex, 200, true, 3_000).unwrap();
    bank.make_deposit(AGENT_FLOAT, &a1_hex, 300, true, 3_000).unwrap();
    // A commit asked for at an earlier instant never goes backwards.
    bank.make_withdrawal(&a1_hex, 50, 1_000).unwrap();

    let history = bank.get_transaction_history(&a1_hex).unwrap();
    assert_eq!(history.len(), 4);
    for w in history.windows(2) {
        let newer = (w[0].timestamp, w[0].id);
        let older = (w[1].timestamp, w[1].id);
        assert!(newer > older);
    }
    assert_eq!(history[0].amount, 50);
    assert_eq!(history[1].amount, 300);
    assert_eq!(history[2].amount, 200);
    assert_eq!(history[3].amount, 100);
}

#[test]
fn reads_are_idempotent() {
    let mut bank = Bank::new();
    let u1 = bank
        .create_user(&"u1@example.com".to_string(), &"secret".to_string())
        .unwrap();
    let a1 = bank
        .create_account(&u1.uuid, AccountType::Checking, "main", 1_000)
        .unwrap();
    let a1_hex = hex_id(&a1);
    bank.make_deposit(AGENT_FLOAT, &a1_hex, 4200, true, 2_000).unwrap();

    assert_eq!(bank.get_account(&a1_hex), bank.get_account(&a1_hex));
    assert_eq!(
        bank.get_transaction_history(&a1_hex),
        bank.get_transaction_history(&a1_hex)
    );
    assert_eq!(bank.read_balance(&a1_hex), Ok(4200));
    assert_eq!(bank.read_balance(&a1_hex), Ok(4200));
}

#[test]
fn deposit_argument_validation() {
    let mut bank = Bank::new();
    let u1 = bank
        .create_user(&"u1@example.com".to_string(), &"secret".to_string())
        .unwrap();
    let a1 = bank
        .create_account(&u1.uuid, AccountType::Checking, "main", 1_000)
        .unwrap();
    let a1_hex = hex_id(&a1);

    // Malformed ids.
    assert_eq!(
        bank.make_deposit("nonsense", &a1_hex, 100, true, 2_000),
        Err(ErrorCode::InvalidArgument)
    );
    assert_eq!(
        bank.make_deposit(AGENT_FLOAT, "0123", 100, true, 2_000),
        Err(ErrorCode::InvalidArgument)
    );
    // A zero amount.
    assert_eq!(
        bank.make_deposit(AGENT_FLOAT, &a1_hex, 0, true, 2_000),
        Err(ErrorCode::InvalidArgument)
    );
    // Identical source and destination.
    assert_eq!(
        bank.make_deposit(&a1_hex, &a1_hex, 100, false, 2_000),
        Err(ErrorCode::InvalidArgument)
    );
    // An unfunded source fails its precondition before the destination
    // is even looked up.
    assert_eq!(
        bank.make_deposit(&a1_hex, "0123456789abcdef01234567", 100, false, 2_000),
        Err(ErrorCode::FailedPrecondition)
    );
    // A funded source, but a well-formed unknown destination.
    bank.make_deposit(AGENT_FLOAT, &a1_hex, 1000, true, 2_000).unwrap();
    assert_eq!(
        bank.make_deposit(&a1_hex, "0123456789abcdef01234567", 100, false, 2_000),
        Err(ErrorCode::NotFound)
    );
    assert_eq!(bank.read_balance(&a1_hex), Ok(1000));
    assert_eq!(
        bank.make_deposit("0123456789abcdef01234567", &a1_hex, 100, false, 2_000),
        Err(ErrorCode::NotFound)
    );
    // The agent float needs no backing account, but the destination must exist.
    assert_eq!(
        bank.make_deposit(AGENT_FLOAT, "0123456789abcdef01234567", 100, true, 2_000),
        Err(ErrorCode::NotFound)
    );
}

#[test]
fn withdrawal_argument_validation() {
    let mut bank = Bank::new();
    let u1 = bank
        .create_user(&"u1@example.com".to_string(), &"secret".to_string())
        .unwrap();
    let a1 = bank
        .create_account(&u1.uuid, AccountType::Checking, "main", 1_000)
        .unwrap();
    let a1_hex = hex_id(&a1);
    bank.make_deposit(AGENT_FLOAT, &a1_hex, 100, true, 2_000).unwrap();

    assert_eq!(
        bank.make_withdrawal("bogus id", 10, 3_000),
        Err(ErrorCode::InvalidArgument)
    );
    assert_eq!(bank.make_withdrawal(&a1_hex, 0, 3_000), Err(ErrorCode::InvalidArgument));
    assert_eq!(
        bank.make_withdrawal("0123456789abcdef01234567", 10, 3_000),
        Err(ErrorCode::NotFound)
    );
    assert_eq!(bank.read_balance(&a1_hex), Ok(100));
}

#[test]
fn credit_overflow_is_a_store_failure() {
    let mut bank = Bank::new();
    let u1 = bank
        .create_user(&"u1@example.com".to_string(), &"secret".to_string())
        .unwrap();
    let a1 = bank
        .create_account(&u1.uuid, AccountType::Checking, "main", 1_000)
        .unwrap();
    let a1_hex = hex_id(&a1);
    bank.make_deposit(AGENT_FLOAT, &a1_hex, u64::MAX, true, 2_000).unwrap();
    assert_eq!(bank.read_balance(&a1_hex), Ok(u64::MAX));

    let before = bank.get_transaction_history(&a1_hex).unwrap();
    assert_eq!(
        bank.make_deposit(AGENT_FLOAT, &a1_hex, 1, true, 3_000),
        Err(ErrorCode::Internal)
    );
    assert_eq!(bank.read_balance(&a1_hex), Ok(u64::MAX));
    assert_eq!(bank.get_transaction_history(&a1_hex).unwrap(), before);
}

#[test]
fn history_of_unknown_account_is_empty() {
    let bank = Bank::new();
    let history = bank.get_transaction_history("0123456789abcdef01234567").unwrap();
    assert!(history.is_empty());
    assert_eq!(
        bank.get_transaction_history("not hex"),
        Err(ErrorCode::InvalidArgument)
    );
}

#[test]
fn empty_amounts_and_missing_accounts_read_as_errors() {
    let bank = Bank::new();
    assert_eq!(bank.read_balance("zz"), Err(ErrorCode::InvalidArgument));
    assert_eq!(
        bank.read_balance("0123456789abcdef01234567"),
        Err(ErrorCode::NotFound)
    );
    assert_eq!(
        bank.get_account("0123456789abcdef01234567"),
        Err(ErrorCode::NotFound)
    );
}
