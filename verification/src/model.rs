//! The persisted data model: users, accounts, and the append-only
//! transaction log entries.

use vstd::prelude::*;
use crate::oid::DocId;

verus! {

/// The two account kinds.
#[derive(Clone, Copy, Debug, PartialEq, Eq, Structural)]
pub enum AccountType {
    Checking,
    Savings,
}

/// Wire value of an account type, as the RPC surface carries it.
/// The caller must pass one of the two defined values.
pub fn account_type_to_string(value: i32) -> (r: String)
    requires
        value == 0 || value == 1,
    ensures
        value == 0 ==> r@ == "CHECKING"@,
        value == 1 ==> r@ == "SAVINGS"@,
{
    if value == 0 {
        String::from_str("CHECKING")
    } else {
        String::from_str("SAVINGS")
    }
}

/// The account type a wire integer denotes, if any.
pub fn account_type_from_i32(value: i32) -> (r: Option<AccountType>)
    ensures
        r == spec_account_type_from_i32(value),
{
    if value == 0 {
        Some(AccountType::Checking)
    } else if value == 1 {
        Some(AccountType::Savings)
    } else {
        None
    }
}

pub open spec fn spec_account_type_from_i32(value: i32) -> Option<AccountType> {
    if value == 0 {
        Some(AccountType::Checking)
    } else if value == 1 {
        Some(AccountType::Savings)
    } else {
        None
    }
}

/// Wire integer of an account type.
pub fn account_type_to_i32(t: AccountType) -> (r: i32)
    ensures
        spec_account_type_from_i32(r) == Some(t),
{
    match t {
        AccountType::Checking => 0,
        AccountType::Savings => 1,
    }
}

/// One account record. Amounts are in minor units (cents), so that the
/// arithmetic of the engines is exact.
#[derive(Debug, PartialEq, Eq)]
pub struct Account {
    pub id: DocId,
    /// Stable uuid of the owning user.
    pub user_id: String,
    pub account_type: AccountType,
    pub account_name: String,
    /// Balance in minor units; the representation keeps it non-negative.
    pub balance: u64,
    /// Unix milliseconds of creation.
    pub created_at: u64,
    /// Unix milliseconds of the latest balance mutation.
    pub updated_at: u64,
}

impl Clone for Account {
    fn clone(&self) -> (r: Self)
        ensures
            r == *self,
    {
        Account {
            id: self.id,
            user_id: self.user_id.clone(),
            account_type: self.account_type,
            account_name: self.account_name.clone(),
            balance: self.balance,
            created_at: self.created_at,
            updated_at: self.updated_at,
        }
    }
}

/// The two money events the ledger records.
#[derive(Clone, Copy, Debug, PartialEq, Eq, Structural)]
pub enum TxKind {
    Deposit,
    Withdrawal,
}

/// One ledger entry. Entries are append-only: once written they are never
/// modified or deleted.
#[derive(Clone, Copy, Debug, PartialEq, Eq)]
pub struct Transaction {
    /// Store-assigned id, strictly increasing in commit order.
    pub id: u64,
    pub kind: TxKind,
    /// Source account; absent for agent deposits, present otherwise.
    pub from_account: Option<DocId>,
    /// Destination account; present exactly for deposits.
    pub to_account: Option<DocId>,
    /// Positive amount in minor units.
    pub amount: u64,
    /// Store-assigned commit instant, Unix milliseconds.
    pub timestamp: u64,
}

/// Shape invariant of one ledger entry.
pub open spec fn tx_well_formed(t: Transaction) -> bool {
    &&& t.amount > 0
    &&& (t.kind is Withdrawal ==> t.from_account is Some && t.to_account is None)
    &&& (t.kind is Deposit ==> t.to_account is Some)
}

/// One user record.
#[derive(Debug, PartialEq, Eq)]
pub struct User {
    pub id: DocId,
    /// Stable public identifier, carried in tokens.
    pub uuid: String,
    /// Email-shaped login name; unique among users.
    pub username: String,
    pub password: String,
}

impl Clone for User {
    fn clone(&self) -> (r: Self)
        ensures
            r == *self,
    {
        User {
            id: self.id,
            uuid: self.uuid.clone(),
            username: self.username.clone(),
            password: self.password.clone(),
        }
    }
}

} // verus!
