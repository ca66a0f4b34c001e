//! The verified store and the money-movement engines on it: account
//! creation and reads, the atomic balance primitives, the transfer and
//! withdrawal engines, and the history read model.
//!
//! The store is a single in-memory state, so the whole of a transfer or a
//! withdrawal commits or none of it does; the compensation path that a
//! non-transactional document store would force is not needed here.

use vstd::prelude::*;
use vstd::string::StringSliceAdditionalSpecFns;

use crate::errors::ErrorCode;
use crate::model::{Account, AccountType, Transaction, TxKind, User, tx_well_formed};
use crate::oid::{DocId, parse_doc_id, valid_doc_id_bytes, doc_id_of_bytes};

verus! {

/// Mathematical state of the store: the three collections, the ordinal the
/// next created document id takes, and the latest commit instant the
/// ledger has seen.
pub struct BankView {
    pub users: Seq<User>,
    pub accounts: Seq<Account>,
    pub log: Seq<Transaction>,
    pub next_seq: u64,
    pub last_timestamp: u64,
}

/// The accounts collection as a map from id to record; later records
/// shadow earlier ones, which uniqueness of ids makes irrelevant.
pub open spec fn map_of_accounts(s: Seq<Account>) -> Map<DocId, Account>
    decreases s.len(),
{
    if s.len() == 0 {
        Map::empty()
    } else {
        map_of_accounts(s.drop_last()).insert(s.last().id, s.last())
    }
}

pub open spec fn account_map(v: BankView) -> Map<DocId, Account> {
    map_of_accounts(v.accounts)
}

pub open spec fn account_ids_unique(s: Seq<Account>) -> bool {
    forall|i: int, j: int| 0 <= i < j < s.len() ==> s[i].id != s[j].id
}

/// Index of the account holding `id`; meaningful only when one exists and
/// ids are unique.
pub open spec fn account_index(s: Seq<Account>, id: DocId) -> int {
    choose|i: int| 0 <= i < s.len() && s[i].id == id
}

/// A store-generated id: the counter value, in the low word.
pub open spec fn doc_id_of_seq(n: u64) -> DocId {
    DocId { hi: 0, lo: n }
}

pub open spec fn user_ids_fresh(v: BankView) -> bool {
    forall|i: int|
        0 <= i < v.users.len() ==> (#[trigger] v.users[i]).id.hi == 0 && 0 < v.users[i].id.lo
            < v.next_seq
}

pub open spec fn account_ids_fresh(v: BankView) -> bool {
    forall|i: int|
        0 <= i < v.accounts.len() ==> (#[trigger] v.accounts[i]).id.hi == 0 && 0
            < v.accounts[i].id.lo < v.next_seq
}

pub open spec fn usernames_unique(users: Seq<User>) -> bool {
    forall|i: int, j: int|
        0 <= i < j < users.len() ==> users[i].username@ != users[j].username@
}

pub open spec fn user_uuids_unique(users: Seq<User>) -> bool {
    forall|i: int, j: int| 0 <= i < j < users.len() ==> users[i].uuid@ != users[j].uuid@
}

pub open spec fn user_ids_unique(users: Seq<User>) -> bool {
    forall|i: int, j: int| 0 <= i < j < users.len() ==> users[i].id != users[j].id
}

/// Every ledger entry is shape-correct, ids follow commit order starting
/// at 1, and timestamps never exceed the recorded latest instant.
pub open spec fn log_entries_ok(v: BankView) -> bool {
    forall|i: int|
        0 <= i < v.log.len() ==> {
            &&& tx_well_formed(#[trigger] v.log[i])
            &&& v.log[i].id == i + 1
            &&& v.log[i].timestamp <= v.last_timestamp
        }
}

/// Commit instants never decrease along the ledger.
pub open spec fn log_timestamps_ordered(log: Seq<Transaction>) -> bool {
    forall|i: int, j: int| 0 <= i < j < log.len() ==> log[i].timestamp <= log[j].timestamp
}

/// Every account a ledger entry names exists in the store.
pub open spec fn log_refs_exist(v: BankView) -> bool {
    forall|i: int|
        0 <= i < v.log.len() ==> {
            &&& ((#[trigger] v.log[i]).from_account matches Some(a) ==> account_map(
                v,
            ).dom().contains(a))
            &&& (v.log[i].to_account matches Some(a) ==> account_map(v).dom().contains(a))
        }
}

/// Well-formedness of the store state. Every public operation preserves
/// it.
pub open spec fn bank_inv(v: BankView) -> bool {
    &&& v.next_seq >= 1
    &&& account_ids_unique(v.accounts)
    &&& account_ids_fresh(v)
    &&& user_ids_unique(v.users)
    &&& user_ids_fresh(v)
    &&& usernames_unique(v.users)
    &&& user_uuids_unique(v.users)
    &&& log_entries_ok(v)
    &&& log_timestamps_ordered(v.log)
    &&& log_refs_exist(v)
}

/// Total credits the ledger grants to `id`.
pub open spec fn credits(log: Seq<Transaction>, id: DocId) -> int
    decreases log.len(),
{
    if log.len() == 0 {
        0
    } else {
        credits(log.drop_last(), id) + if log.last().to_account == Some(id) {
            log.last().amount as int
        } else {
            0
        }
    }
}

/// Total debits the ledger charges to `id`.
pub open spec fn debits(log: Seq<Transaction>, id: DocId) -> int
    decreases log.len(),
{
    if log.len() == 0 {
        0
    } else {
        debits(log.drop_last(), id) + if log.last().from_account == Some(id) {
            log.last().amount as int
        } else {
            0
        }
    }
}

/// Ledger completeness: each balance equals the credits minus the debits
/// the ledger derives for it. The money engines preserve this; the
/// account-service administrative balance write does not promise to.
pub open spec fn bank_balanced(v: BankView) -> bool {
    forall|i: int|
        0 <= i < v.accounts.len() ==> (#[trigger] v.accounts[i]).balance as int == credits(
            v.log,
            v.accounts[i].id,
        ) - debits(v.log, v.accounts[i].id)
}

pub proof fn lemma_account_map_contains(s: Seq<Account>, id: DocId)
    ensures
        map_of_accounts(s).dom().contains(id) <==> exists|i: int|
            0 <= i < s.len() && (#[trigger] s[i]).id == id,
    decreases s.len(),
{
    if s.len() > 0 {
        lemma_account_map_contains(s.drop_last(), id);
        if s.last().id == id {
            assert(s[s.len() - 1].id == id);
        } else {
            if map_of_accounts(s).dom().contains(id) {
                let i = choose|i: int| 0 <= i < s.drop_last().len() && (#[trigger] s.drop_last()[i]).id == id;
                assert(s[i].id == id);
            }
            if exists|i: int| 0 <= i < s.len() && (#[trigger] s[i]).id == id {
                let i = choose|i: int| 0 <= i < s.len() && (#[trigger] s[i]).id == id;
                assert(i < s.len() - 1);
                assert(s.drop_last()[i].id == id);
            }
        }
    }
}

pub proof fn lemma_account_map_index(s: Seq<Account>, i: int)
    requires
        account_ids_unique(s),
        0 <= i < s.len(),
    ensures
        map_of_accounts(s).dom().contains(s[i].id),
        map_of_accounts(s)[s[i].id] == s[i],
    decreases s.len(),
{
    if i == s.len() - 1 {
        assert(s.last() == s[i]);
    } else {
        assert(account_ids_unique(s.drop_last())) by {
            assert(forall|a: int, b: int|
                0 <= a < b < s.drop_last().len() ==> s.drop_last()[a] == s[a] && s.drop_last()[b]
                    == s[b]);
        }
        lemma_account_map_index(s.drop_last(), i);
        assert(s.drop_last()[i] == s[i]);
        assert(s[i].id != s.last().id) by {
            assert(s.last() == s[s.len() - 1]);
        }
    }
}

pub proof fn lemma_account_map_update(s: Seq<Account>, i: int, a: Account)
    requires
        account_ids_unique(s),
        0 <= i < s.len(),
        a.id == s[i].id,
    ensures
        account_ids_unique(s.update(i, a)),
        map_of_accounts(s.update(i, a)) == map_of_accounts(s).insert(a.id, a),
    decreases s.len(),
{
    let t = s.update(i, a);
    assert(account_ids_unique(t)) by {
        assert(forall|p: int, q: int|
            0 <= p < q < t.len() ==> (#[trigger] t[p]).id != (#[trigger] t[q]).id) by {
            assert(forall|p: int| 0 <= p < t.len() ==> (#[trigger] t[p]).id == s[p].id);
        }
    }
    if i == s.len() - 1 {
        assert(t.drop_last() =~= s.drop_last());
        assert(t.last() == a);
        assert(s.last() == s[i]);
        assert(map_of_accounts(t) == map_of_accounts(s.drop_last()).insert(a.id, a));
        assert(map_of_accounts(s) == map_of_accounts(s.drop_last()).insert(s[i].id, s[i]));
        assert(map_of_accounts(s.drop_last()).insert(a.id, a) =~= map_of_accounts(
            s.drop_last(),
        ).insert(s[i].id, s[i]).insert(a.id, a));
    } else {
        assert(account_ids_unique(s.drop_last())) by {
            assert(forall|p: int, q: int|
                0 <= p < q < s.drop_last().len() ==> s.drop_last()[p] == s[p] && s.drop_last()[q]
                    == s[q]);
        }
        lemma_account_map_update(s.drop_last(), i, a);
        assert(t.drop_last() =~= s.drop_last().update(i, a));
        assert(t.last() == s.last());
        assert(s[i].id != s.last().id) by {
            assert(s.last() == s[s.len() - 1]);
        }
        assert(map_of_accounts(t) == map_of_accounts(s.drop_last().update(i, a)).insert(
            s.last().id,
            s.last(),
        ));
        assert(map_of_accounts(s.drop_last().update(i, a)) == map_of_accounts(
            s.drop_last(),
        ).insert(a.id, a));
        assert(map_of_accounts(s.drop_last()).insert(a.id, a).insert(s.last().id, s.last())
            =~= map_of_accounts(s.drop_last()).insert(s.last().id, s.last()).insert(a.id, a));
    }
}

pub proof fn lemma_account_map_push(s: Seq<Account>, a: Account)
    ensures
        map_of_accounts(s.push(a)) == map_of_accounts(s).insert(a.id, a),
{
    assert(s.push(a).drop_last() =~= s);
    assert(s.push(a).last() == a);
}

/// An account the ledger never names collects no credits.
pub proof fn lemma_credits_absent(log: Seq<Transaction>, id: DocId)
    requires
        forall|i: int| 0 <= i < log.len() ==> (#[trigger] log[i]).to_account != Some(id),
    ensures
        credits(log, id) == 0,
    decreases log.len(),
{
    if log.len() > 0 {
        assert(log.last() == log[log.len() - 1]);
        assert(forall|i: int|
            0 <= i < log.drop_last().len() ==> (#[trigger] log.drop_last()[i]) == log[i]);
        lemma_credits_absent(log.drop_last(), id);
    }
}

/// An account the ledger never names collects no debits.
pub proof fn lemma_debits_absent(log: Seq<Transaction>, id: DocId)
    requires
        forall|i: int| 0 <= i < log.len() ==> (#[trigger] log[i]).from_account != Some(id),
    ensures
        debits(log, id) == 0,
    decreases log.len(),
{
    if log.len() > 0 {
        assert(log.last() == log[log.len() - 1]);
        assert(forall|i: int|
            0 <= i < log.drop_last().len() ==> (#[trigger] log.drop_last()[i]) == log[i]);
        lemma_debits_absent(log.drop_last(), id);
    }
}

pub proof fn lemma_credits_push(log: Seq<Transaction>, t: Transaction, id: DocId)
    ensures
        credits(log.push(t), id) == credits(log, id) + if t.to_account == Some(id) {
            t.amount as int
        } else {
            0
        },
        debits(log.push(t), id) == debits(log, id) + if t.from_account == Some(id) {
            t.amount as int
        } else {
            0
        },
{
    assert(log.push(t).drop_last() =~= log);
    assert(log.push(t).last() == t);
}

/// `s[i].id == id` pins `i` as the account's index when ids are unique.
pub proof fn lemma_account_index(s: Seq<Account>, i: int)
    requires
        account_ids_unique(s),
        0 <= i < s.len(),
    ensures
        account_index(s, s[i].id) == i,
{
    assert(0 <= i < s.len() && s[i].id == s[i].id);
    let j = account_index(s, s[i].id);
    assert(0 <= j < s.len() && s[j].id == s[i].id);
}

/// The record after a balance write: only the balance and the mutation
/// instant change.
pub open spec fn upd_balance(a: Account, new_balance: u64, now: u64) -> Account {
    Account { balance: new_balance, updated_at: now, ..a }
}

/// State after crediting `amount` to `id`; meaningful when the account
/// exists and the sum fits its representation.
pub open spec fn credit_view(v: BankView, id: DocId, amount: u64, now: u64) -> BankView
    recommends
        account_map(v).dom().contains(id),
{
    let i = account_index(v.accounts, id);
    let a = v.accounts[i];
    BankView {
        accounts: v.accounts.update(i, upd_balance(a, (a.balance + amount) as u64, now)),
        ..v
    }
}

/// State after debiting `amount` from `id`; meaningful when the account
/// exists and covers the amount.
pub open spec fn debit_view(v: BankView, id: DocId, amount: u64, now: u64) -> BankView
    recommends
        account_map(v).dom().contains(id),
{
    let i = account_index(v.accounts, id);
    let a = v.accounts[i];
    BankView {
        accounts: v.accounts.update(i, upd_balance(a, (a.balance - amount) as u64, now)),
        ..v
    }
}

/// A balance write touches nothing but the written account.
pub proof fn lemma_balance_write_map(v: BankView, i: int, a: Account)
    requires
        bank_inv(v),
        0 <= i < v.accounts.len(),
        a.id == v.accounts[i].id,
        a.created_at == v.accounts[i].created_at,
        a.user_id == v.accounts[i].user_id,
        a.account_type == v.accounts[i].account_type,
        a.account_name == v.accounts[i].account_name,
    ensures
        ({
            let w = BankView { accounts: v.accounts.update(i, a), ..v };
            &&& bank_inv(w)
            &&& account_map(w) == account_map(v).insert(a.id, a)
            &&& account_map(w).dom() == account_map(v).dom()
        }),
{
    let w = BankView { accounts: v.accounts.update(i, a), ..v };
    lemma_account_map_update(v.accounts, i, a);
    lemma_account_map_index(v.accounts, i);
    assert(account_map(w).dom() =~= account_map(v).dom());
    assert(account_ids_fresh(w)) by {
        assert(forall|p: int|
            0 <= p < w.accounts.len() ==> (#[trigger] w.accounts[p]).id == v.accounts[p].id
                && w.accounts[p].id.hi == v.accounts[p].id.hi && w.accounts[p].id.lo
                == v.accounts[p].id.lo);
    }
    assert(log_refs_exist(w)) by {
        assert(forall|p: int|
            0 <= p < w.log.len() ==> (#[trigger] w.log[p]) == v.log[p]);
    }
}

/// State after writing `new_balance` into the account, whatever it held;
/// meaningful when the account exists.
pub open spec fn set_balance_view(v: BankView, id: DocId, new_balance: u64, now: u64) -> BankView
    recommends
        account_map(v).dom().contains(id),
{
    let i = account_index(v.accounts, id);
    BankView { accounts: v.accounts.update(i, upd_balance(v.accounts[i], new_balance, now)), ..v }
}

/// The sequence of accounts owned by the user with stable uuid `uid`, in
/// store order.
pub open spec fn accounts_of_user(s: Seq<Account>, uid: Seq<char>) -> Seq<Account>
    decreases s.len(),
{
    if s.len() == 0 {
        Seq::empty()
    } else {
        accounts_of_user(s.drop_last(), uid) + if s.last().user_id@ == uid {
            seq![s.last()]
        } else {
            Seq::empty()
        }
    }
}

/// Whether some user already carries the login name.
pub open spec fn username_taken(users: Seq<User>, name: Seq<char>) -> bool {
    exists|i: int| 0 <= i < users.len() && (#[trigger] users[i]).username@ == name
}

/// Whether some user already carries the stable uuid.
pub open spec fn uuid_taken(users: Seq<User>, uuid: Seq<char>) -> bool {
    exists|i: int| 0 <= i < users.len() && (#[trigger] users[i]).uuid@ == uuid
}

/// The user carrying the login name; meaningful when one exists, unique
/// when login names are.
pub open spec fn user_with_username(users: Seq<User>, name: Seq<char>) -> User {
    users[choose|i: int| 0 <= i < users.len() && (#[trigger] users[i]).username@ == name]
}

/// The user carrying the stable uuid; meaningful when one exists, unique
/// when uuids are.
pub open spec fn user_with_uuid(users: Seq<User>, uuid: Seq<char>) -> User {
    users[choose|i: int| 0 <= i < users.len() && (#[trigger] users[i]).uuid@ == uuid]
}

/// Index of the user carrying the document id; meaningful when one
/// exists.
pub open spec fn user_index_of_id(users: Seq<User>, id: DocId) -> int {
    choose|i: int| 0 <= i < users.len() && (#[trigger] users[i]).id == id
}

pub open spec fn user_id_present(users: Seq<User>, id: DocId) -> bool {
    exists|i: int| 0 <= i < users.len() && (#[trigger] users[i]).id == id
}

/// The instant the store stamps on a commit requested at `now`: never
/// earlier than what the ledger has already seen, so ledger order is
/// ledger time.
pub open spec fn commit_instant(v: BankView, now: u64) -> u64 {
    if now >= v.last_timestamp {
        now
    } else {
        v.last_timestamp
    }
}

/// The entry a successful append writes.
pub open spec fn appended_tx(
    v: BankView,
    kind: TxKind,
    from_account: Option<DocId>,
    to_account: Option<DocId>,
    amount: u64,
    now: u64,
) -> Transaction {
    Transaction {
        id: (v.log.len() + 1) as u64,
        kind,
        from_account,
        to_account,
        amount,
        timestamp: commit_instant(v, now),
    }
}

/// State after a successful append.
pub open spec fn append_view(
    v: BankView,
    kind: TxKind,
    from_account: Option<DocId>,
    to_account: Option<DocId>,
    amount: u64,
    now: u64,
) -> BankView {
    BankView {
        log: v.log.push(appended_tx(v, kind, from_account, to_account, amount, now)),
        last_timestamp: commit_instant(v, now),
        ..v
    }
}

/// Whether a ledger entry names the account, as source or destination.
pub open spec fn involves(t: Transaction, id: DocId) -> bool {
    t.from_account == Some(id) || t.to_account == Some(id)
}

/// The account's history, newest entry first: the ledger entries naming
/// it, walked from the latest commit backwards.
pub open spec fn history_of(log: Seq<Transaction>, id: DocId) -> Seq<Transaction>
    decreases log.len(),
{
    if log.len() == 0 {
        Seq::empty()
    } else if involves(log.last(), id) {
        seq![log.last()] + history_of(log.drop_last(), id)
    } else {
        history_of(log.drop_last(), id)
    }
}

/// Outcome of a transfer: the state after it and what the engine answers.
/// The transfer is atomic: on any error the state is what it was.
pub open spec fn spec_make_deposit(
    v: BankView,
    from: Seq<u8>,
    to: Seq<u8>,
    amount: u64,
    is_bank_agent: bool,
    now: u64,
) -> (BankView, Result<(), ErrorCode>) {
    if !valid_doc_id_bytes(from) || !valid_doc_id_bytes(to) || amount == 0 || doc_id_of_bytes(from)
        == doc_id_of_bytes(to) {
        (v, Err(ErrorCode::InvalidArgument))
    } else {
        let f = doc_id_of_bytes(from);
        let t = doc_id_of_bytes(to);
        if !is_bank_agent && !account_map(v).dom().contains(f) {
            (v, Err(ErrorCode::NotFound))
        } else if !is_bank_agent && account_map(v)[f].balance < amount {
            (v, Err(ErrorCode::FailedPrecondition))
        } else if !account_map(v).dom().contains(t) {
            (v, Err(ErrorCode::NotFound))
        } else if account_map(v)[t].balance + amount > u64::MAX {
            (v, Err(ErrorCode::Internal))
        } else if v.log.len() + 1 > u64::MAX {
            (v, Err(ErrorCode::Internal))
        } else {
            let v1 = if is_bank_agent {
                v
            } else {
                debit_view(v, f, amount, now)
            };
            let v2 = credit_view(v1, t, amount, now);
            let source = if is_bank_agent {
                Option::<DocId>::None
            } else {
                Some(f)
            };
            let v3 = append_view(v2, TxKind::Deposit, source, Some(t), amount, now);
            (v3, Ok(()))
        }
    }
}

/// Outcome of a withdrawal: the state after it and what the engine
/// answers, a transaction id on success. Atomic in the same sense.
pub open spec fn spec_make_withdrawal(v: BankView, account: Seq<u8>, amount: u64, now: u64) -> (
    BankView,
    Result<u64, ErrorCode>,
) {
    if !valid_doc_id_bytes(account) || amount == 0 {
        (v, Err(ErrorCode::InvalidArgument))
    } else {
        let a = doc_id_of_bytes(account);
        if !account_map(v).dom().contains(a) {
            (v, Err(ErrorCode::NotFound))
        } else if account_map(v)[a].balance < amount {
            (v, Err(ErrorCode::FailedPrecondition))
        } else if v.log.len() + 1 > u64::MAX {
            (v, Err(ErrorCode::Internal))
        } else {
            let v1 = debit_view(v, a, amount, now);
            let v2 = append_view(v1, TxKind::Withdrawal, Some(a), None, amount, now);
            (v2, Ok((v.log.len() + 1) as u64))
        }
    }
}

/// One accepted operation of the money subsystem, as the laws quantify
/// over runs. A created account's record is carried whole; its id and its
/// opening balance are the store's choice, not the operation's.
pub enum BankOp {
    CreateAccount { record: Account },
    Deposit { from: Seq<u8>, to: Seq<u8>, amount: u64, is_bank_agent: bool, now: u64 },
    Withdrawal { account: Seq<u8>, amount: u64, now: u64 },
}

/// State after creating an account: the record is stored under a fresh
/// store-assigned id with an opening balance of zero.
pub open spec fn apply_create_account(v: BankView, a: Account) -> BankView {
    if v.next_seq == u64::MAX {
        v
    } else {
        BankView {
            accounts: v.accounts.push(
                Account { id: doc_id_of_seq(v.next_seq), balance: 0, ..a },
            ),
            next_seq: (v.next_seq + 1) as u64,
            ..v
        }
    }
}

pub open spec fn apply_op(v: BankView, op: BankOp) -> BankView {
    match op {
        BankOp::CreateAccount { record } => apply_create_account(v, record),
        BankOp::Deposit { from, to, amount, is_bank_agent, now } => spec_make_deposit(
            v,
            from,
            to,
            amount,
            is_bank_agent,
            now,
        ).0,
        BankOp::Withdrawal { account, amount, now } => spec_make_withdrawal(
            v,
            account,
            amount,
            now,
        ).0,
    }
}

/// The state a run of operations ends in.
pub open spec fn apply_ops(v: BankView, ops: Seq<BankOp>) -> BankView
    decreases ops.len(),
{
    if ops.len() == 0 {
        v
    } else {
        apply_op(apply_ops(v, ops.drop_last()), ops.last())
    }
}

/// The verified store. A value of it can only be made by `new`, and every
/// operation preserves `bank_inv`, so along any execution the invariant
/// holds.
pub struct Bank {
    users: Vec<User>,
    accounts: Vec<Account>,
    transactions: Vec<Transaction>,
    next_seq: u64,
    last_timestamp: u64,
}

impl View for Bank {
    type V = BankView;

    closed spec fn view(&self) -> BankView {
        BankView {
            users: self.users@,
            accounts: self.accounts@,
            log: self.transactions@,
            next_seq: self.next_seq,
            last_timestamp: self.last_timestamp,
        }
    }
}

/// The state a store starts in: nothing persisted yet.
pub open spec fn initial_bank() -> BankView {
    BankView {
        users: Seq::empty(),
        accounts: Seq::empty(),
        log: Seq::empty(),
        next_seq: 1,
        last_timestamp: 0,
    }
}

impl Bank {
    /// Opens an empty store.
    pub fn new() -> (r: Bank)
        ensures
            r@ == initial_bank(),
            bank_inv(r@),
            bank_balanced(r@),
    {
        let b = Bank {
            users: Vec::new(),
            accounts: Vec::new(),
            transactions: Vec::new(),
            next_seq: 1,
            last_timestamp: 0,
        };
        proof {
            assert(b@ =~= initial_bank());
        }
        b
    }

    /// Index of the account holding `id`, if any.
    fn find_account(&self, id: DocId) -> (r: Option<usize>)
        ensures
            r matches Some(i) ==> 0 <= i < self@.accounts.len() && self@.accounts[i as int].id
                == id,
            r is None ==> forall|i: int|
                0 <= i < self@.accounts.len() ==> (#[trigger] self@.accounts[i]).id != id,
    {
        let n = self.accounts.len();
        let mut i: usize = 0;
        while i < n
            invariant
                n == self@.accounts.len(),
                0 <= i <= n,
                forall|j: int| 0 <= j < i ==> (#[trigger] self@.accounts[j]).id != id,
            decreases n - i,
        {
            if self.accounts[i].id == id {
                return Some(i);
            }
            i = i + 1;
        }
        None
    }

    /// Atomically applies `balance := balance + amount` to the account,
    /// as one conditional update of the store: no read-modify-write
    /// window exists around it.
    pub fn credit(&mut self, id: DocId, amount: u64, now: u64) -> (r: Result<(), ErrorCode>)
        requires
            bank_inv(old(self)@),
        ensures
            bank_inv(final(self)@),
            !account_map(old(self)@).dom().contains(id) ==> r == Err::<(), ErrorCode>(
                ErrorCode::NotFound,
            ) && final(self)@ == old(self)@,
            account_map(old(self)@).dom().contains(id) && account_map(old(self)@)[id].balance
                + amount > u64::MAX ==> r == Err::<(), ErrorCode>(ErrorCode::Internal) && final(self)@
                == old(self)@,
            account_map(old(self)@).dom().contains(id) && account_map(old(self)@)[id].balance
                + amount <= u64::MAX ==> r == Ok::<(), ErrorCode>(()) && final(self)@ == credit_view(
                old(self)@,
                id,
                amount,
                now,
            ),
            account_map(final(self)@).dom() == account_map(old(self)@).dom(),
            final(self)@.users == old(self)@.users,
            final(self)@.log == old(self)@.log,
            final(self)@.next_seq == old(self)@.next_seq,
            final(self)@.last_timestamp == old(self)@.last_timestamp,
    {
        proof {
            lemma_account_map_contains(self@.accounts, id);
        }
        let idx = match self.find_account(id) {
            Some(i) => i,
            None => {
                return Err(ErrorCode::NotFound);
            },
        };
        proof {
            lemma_account_map_index(self@.accounts, idx as int);
            lemma_account_index(self@.accounts, idx as int);
        }
        let bal = self.accounts[idx].balance;
        if amount > u64::MAX - bal {
            return Err(ErrorCode::Internal);
        }
        let a = &self.accounts[idx];
        let updated = Account {
            id: a.id,
            user_id: a.user_id.clone(),
            account_type: a.account_type,
            account_name: a.account_name.clone(),
            balance: bal + amount,
            created_at: a.created_at,
            updated_at: now,
        };
        self.accounts.set(idx, updated);
        proof {
            lemma_balance_write_map(old(self)@, idx as int, updated);
            assert(self@ =~= credit_view(old(self)@, id, amount, now));
        }
        Ok(())
    }

    /// Atomically applies `balance := balance - amount` only if the
    /// balance covers the amount, as one conditional update of the
    /// store: no read-modify-write window exists around it.
    pub fn conditional_debit(&mut self, id: DocId, amount: u64, now: u64) -> (r: Result<
        (),
        ErrorCode,
    >)
        requires
            bank_inv(old(self)@),
        ensures
            bank_inv(final(self)@),
            !account_map(old(self)@).dom().contains(id) ==> r == Err::<(), ErrorCode>(
                ErrorCode::NotFound,
            ) && final(self)@ == old(self)@,
            account_map(old(self)@).dom().contains(id) && account_map(old(self)@)[id].balance
                < amount ==> r == Err::<(), ErrorCode>(ErrorCode::FailedPrecondition) && final(self)@
                == old(self)@,
            account_map(old(self)@).dom().contains(id) && account_map(old(self)@)[id].balance
                >= amount ==> r == Ok::<(), ErrorCode>(()) && final(self)@ == debit_view(
                old(self)@,
                id,
                amount,
                now,
            ),
            account_map(final(self)@).dom() == account_map(old(self)@).dom(),
            final(self)@.users == old(self)@.users,
            final(self)@.log == old(self)@.log,
            final(self)@.next_seq == old(self)@.next_seq,
            final(self)@.last_timestamp == old(self)@.last_timestamp,
    {
        proof {
            lemma_account_map_contains(self@.accounts, id);
        }
        let idx = match self.find_account(id) {
            Some(i) => i,
            None => {
                return Err(ErrorCode::NotFound);
            },
        };
        proof {
            lemma_account_map_index(self@.accounts, idx as int);
            lemma_account_index(self@.accounts, idx as int);
        }
        let bal = self.accounts[idx].balance;
        if bal < amount {
            return Err(ErrorCode::FailedPrecondition);
        }
        let a = &self.accounts[idx];
        let updated = Account {
            id: a.id,
            user_id: a.user_id.clone(),
            account_type: a.account_type,
            account_name: a.account_name.clone(),
            balance: bal - amount,
            created_at: a.created_at,
            updated_at: now,
        };
        self.accounts.set(idx, updated);
        proof {
            lemma_balance_write_map(old(self)@, idx as int, updated);
            assert(self@ =~= debit_view(old(self)@, id, amount, now));
        }
        Ok(())
    }

    /// Creates an account for the user with `balance = 0` and a fresh
    /// store-assigned id.
    pub fn create_account(
        &mut self,
        user_id: &str,
        account_type: AccountType,
        account_name: &str,
        now: u64,
    ) -> (r: Result<DocId, ErrorCode>)
        requires
            bank_inv(old(self)@),
        ensures
            bank_inv(final(self)@),
            bank_balanced(old(self)@) ==> bank_balanced(final(self)@),
            old(self)@.next_seq == u64::MAX ==> r == Err::<DocId, ErrorCode>(ErrorCode::Internal)
                && final(self)@ == old(self)@,
            old(self)@.next_seq < u64::MAX ==> {
                &&& r == Ok::<DocId, ErrorCode>(doc_id_of_seq(old(self)@.next_seq))
                &&& !account_map(old(self)@).dom().contains(doc_id_of_seq(old(self)@.next_seq))
                &&& final(self)@.accounts.len() == old(self)@.accounts.len() + 1
                &&& final(self)@.accounts == old(self)@.accounts.push(
                    final(self)@.accounts.last(),
                )
                &&& ({
                    let a = final(self)@.accounts.last();
                    &&& a.id == doc_id_of_seq(old(self)@.next_seq)
                    &&& a.user_id@ == user_id@
                    &&& a.account_type == account_type
                    &&& a.account_name@ == account_name@
                    &&& a.balance == 0
                    &&& a.created_at == now
                    &&& a.updated_at == now
                })
                &&& account_map(final(self)@) == account_map(old(self)@).insert(
                    doc_id_of_seq(old(self)@.next_seq),
                    final(self)@.accounts.last(),
                )
                &&& final(self)@.next_seq == old(self)@.next_seq + 1
                &&& final(self)@.users == old(self)@.users
                &&& final(self)@.log == old(self)@.log
                &&& final(self)@.last_timestamp == old(self)@.last_timestamp
                &&& final(self)@ == apply_create_account(
                    old(self)@,
                    final(self)@.accounts.last(),
                )
            },
    {
        if self.next_seq == u64::MAX {
            return Err(ErrorCode::Internal);
        }
        let id = DocId { hi: 0, lo: self.next_seq };
        let a = Account {
            id,
            user_id: String::from_str(user_id),
            account_type,
            account_name: String::from_str(account_name),
            balance: 0,
            created_at: now,
            updated_at: now,
        };
        proof {
            lemma_account_map_contains(self@.accounts, id);
        }
        self.accounts.push(a);
        self.next_seq = self.next_seq + 1;
        proof {
            let pre = old(self)@;
            let post = self@;
            lemma_account_map_push(pre.accounts, post.accounts.last());
            assert(post.accounts.last() == post.accounts[post.accounts.len() - 1]);
            assert(account_ids_unique(post.accounts)) by {
                assert(forall|p: int|
                    0 <= p < pre.accounts.len() ==> (#[trigger] post.accounts[p])
                        == pre.accounts[p]);
            }
            assert(log_refs_exist(post)) by {
                assert(forall|p: int| 0 <= p < post.log.len() ==> (#[trigger] post.log[p]) == pre.log[p]);
                assert(account_map(post).dom() =~= account_map(pre).dom().insert(id));
            }
            if bank_balanced(pre) {
                assert(forall|p: int|
                    0 <= p < pre.log.len() ==> (#[trigger] pre.log[p]).to_account != Some(id)
                        && pre.log[p].from_account != Some(id)) by {
                    lemma_account_map_contains(pre.accounts, id);
                }
                lemma_credits_absent(post.log, id);
                lemma_debits_absent(post.log, id);
                assert(forall|p: int|
                    0 <= p < pre.accounts.len() ==> (#[trigger] post.accounts[p])
                        == pre.accounts[p]);
            }
            assert(post =~= apply_create_account(pre, post.accounts.last())) by {
                assert(post.accounts =~= pre.accounts.push(
                    Account { id: doc_id_of_seq(pre.next_seq), balance: 0, ..post.accounts.last() },
                ));
            }
        }
        Ok(id)
    }

    /// Reads one account by its external id.
    pub fn get_account(&self, account_id: &str) -> (r: Result<Account, ErrorCode>)
        requires
            bank_inv(self@),
        ensures
            !valid_doc_id_bytes(account_id.spec_bytes()) ==> r == Err::<Account, ErrorCode>(
                ErrorCode::InvalidArgument,
            ),
            valid_doc_id_bytes(account_id.spec_bytes()) && !account_map(self@).dom().contains(
                doc_id_of_bytes(account_id.spec_bytes()),
            ) ==> r == Err::<Account, ErrorCode>(ErrorCode::NotFound),
            valid_doc_id_bytes(account_id.spec_bytes()) && account_map(self@).dom().contains(
                doc_id_of_bytes(account_id.spec_bytes()),
            ) ==> (r matches Ok(a) && a == account_map(self@)[doc_id_of_bytes(
                account_id.spec_bytes(),
            )]),
    {
        let id = match parse_doc_id(account_id) {
            Some(id) => id,
            None => {
                return Err(ErrorCode::InvalidArgument);
            },
        };
        proof {
            lemma_account_map_contains(self@.accounts, id);
        }
        match self.find_account(id) {
            Some(i) => {
                proof {
                    lemma_account_map_index(self@.accounts, i as int);
                }
                Ok(self.accounts[i].clone())
            },
            None => Err(ErrorCode::NotFound),
        }
    }

    /// Reads one account's balance by its external id.
    pub fn read_balance(&self, account_id: &str) -> (r: Result<u64, ErrorCode>)
        requires
            bank_inv(self@),
        ensures
            !valid_doc_id_bytes(account_id.spec_bytes()) ==> r == Err::<u64, ErrorCode>(
                ErrorCode::InvalidArgument,
            ),
            valid_doc_id_bytes(account_id.spec_bytes()) && !account_map(self@).dom().contains(
                doc_id_of_bytes(account_id.spec_bytes()),
            ) ==> r == Err::<u64, ErrorCode>(ErrorCode::NotFound),
            valid_doc_id_bytes(account_id.spec_bytes()) && account_map(self@).dom().contains(
                doc_id_of_bytes(account_id.spec_bytes()),
            ) ==> r == Ok::<u64, ErrorCode>(
                account_map(self@)[doc_id_of_bytes(account_id.spec_bytes())].balance,
            ),
    {
        match self.get_account(account_id) {
            Ok(a) => Ok(a.balance),
            Err(e) => Err(e),
        }
    }

    /// All accounts owned by the user, in store order.
    pub fn get_user_accounts(&self, user_id: &String) -> (r: Vec<Account>)
        ensures
            r@ == accounts_of_user(self@.accounts, user_id@),
    {
        let n = self.accounts.len();
        let mut out: Vec<Account> = Vec::new();
        let mut i: usize = 0;
        while i < n
            invariant
                n == self@.accounts.len(),
                0 <= i <= n,
                out@ == accounts_of_user(self@.accounts.take(i as int), user_id@),
            decreases n - i,
        {
            proof {
                let taken = self@.accounts.take(i + 1);
                assert(taken.drop_last() =~= self@.accounts.take(i as int));
                assert(taken.last() == self@.accounts[i as int]);
            }
            if self.accounts[i].user_id == *user_id {
                let a = self.accounts[i].clone();
                out.push(a);
                proof {
                    assert(out@ =~= accounts_of_user(self@.accounts.take(i + 1), user_id@));
                }
            } else {
                proof {
                    assert(out@ =~= accounts_of_user(self@.accounts.take(i + 1), user_id@));
                }
            }
            i = i + 1;
        }
        proof {
            assert(self@.accounts.take(n as int) =~= self@.accounts);
        }
        out
    }

    /// The account-service administrative write: stores `balance` as
    /// given and refreshes the mutation instant. It answers the update
    /// request even when the account is absent, with no account in the
    /// response, as the service does. It does not keep the ledger
    /// equation; the money engines never call it.
    pub fn update_account(&mut self, account_id: &str, balance: u64, now: u64) -> (r: Result<
        Option<Account>,
        ErrorCode,
    >)
        requires
            bank_inv(old(self)@),
        ensures
            bank_inv(final(self)@),
            !valid_doc_id_bytes(account_id.spec_bytes()) ==> r == Err::<Option<Account>, ErrorCode>(
                ErrorCode::InvalidArgument,
            ) && final(self)@ == old(self)@,
            valid_doc_id_bytes(account_id.spec_bytes()) && !account_map(old(self)@).dom().contains(
                doc_id_of_bytes(account_id.spec_bytes()),
            ) ==> r == Ok::<Option<Account>, ErrorCode>(None) && final(self)@ == old(self)@,
            valid_doc_id_bytes(account_id.spec_bytes()) && account_map(old(self)@).dom().contains(
                doc_id_of_bytes(account_id.spec_bytes()),
            ) ==> {
                let id = doc_id_of_bytes(account_id.spec_bytes());
                &&& final(self)@ == set_balance_view(old(self)@, id, balance, now)
                &&& account_map(final(self)@) == account_map(old(self)@).insert(
                    id,
                    upd_balance(account_map(old(self)@)[id], balance, now),
                )
                &&& (r matches Ok(a) && a matches Some(a) && a == account_map(final(self)@)[id])
            },
    {
        let id = match parse_doc_id(account_id) {
            Some(id) => id,
            None => {
                return Err(ErrorCode::InvalidArgument);
            },
        };
        proof {
            lemma_account_map_contains(self@.accounts, id);
        }
        let idx = match self.find_account(id) {
            Some(i) => i,
            None => {
                return Ok(None);
            },
        };
        proof {
            lemma_account_map_index(self@.accounts, idx as int);
            lemma_account_index(self@.accounts, idx as int);
        }
        let a = &self.accounts[idx];
        let updated = Account {
            id: a.id,
            user_id: a.user_id.clone(),
            account_type: a.account_type,
            account_name: a.account_name.clone(),
            balance,
            created_at: a.created_at,
            updated_at: now,
        };
        let out = updated.clone();
        self.accounts.set(idx, updated);
        proof {
            lemma_balance_write_map(old(self)@, idx as int, self@.accounts[idx as int]);
            assert(self@ =~= set_balance_view(old(self)@, id, balance, now));
            lemma_account_map_index(self@.accounts, idx as int);
        }
        Ok(Some(out))
    }

    /// Appends one ledger entry, stamping the commit instant and the next
    /// transaction id. Entries are append-only: nothing else ever writes
    /// the ledger, and nothing modifies or deletes an entry.
    pub fn append(
        &mut self,
        kind: TxKind,
        from_account: Option<DocId>,
        to_account: Option<DocId>,
        amount: u64,
        now: u64,
    ) -> (r: Result<u64, ErrorCode>)
        requires
            bank_inv(old(self)@),
            amount > 0,
            kind is Withdrawal ==> from_account is Some && to_account is None,
            kind is Deposit ==> to_account is Some,
            from_account matches Some(a) ==> account_map(old(self)@).dom().contains(a),
            to_account matches Some(a) ==> account_map(old(self)@).dom().contains(a),
        ensures
            bank_inv(final(self)@),
            old(self)@.log.len() + 1 > u64::MAX ==> r == Err::<u64, ErrorCode>(ErrorCode::Internal)
                && final(self)@ == old(self)@,
            old(self)@.log.len() + 1 <= u64::MAX ==> {
                &&& r == Ok::<u64, ErrorCode>((old(self)@.log.len() + 1) as u64)
                &&& final(self)@ == append_view(
                    old(self)@,
                    kind,
                    from_account,
                    to_account,
                    amount,
                    now,
                )
            },
    {
        if self.transactions.len() as u64 == u64::MAX {
            return Err(ErrorCode::Internal);
        }
        let ts = if now >= self.last_timestamp {
            now
        } else {
            self.last_timestamp
        };
        let tid = self.transactions.len() as u64 + 1;
        let tx = Transaction { id: tid, kind, from_account, to_account, amount, timestamp: ts };
        self.transactions.push(tx);
        self.last_timestamp = ts;
        proof {
            let pre = old(self)@;
            let post = self@;
            assert(post =~= append_view(pre, kind, from_account, to_account, amount, now));
            assert(log_entries_ok(post)) by {
                assert(forall|i: int|
                    0 <= i < pre.log.len() ==> (#[trigger] post.log[i]) == pre.log[i]);
                assert(post.log.last() == tx);
                assert(post.log[post.log.len() - 1] == tx);
            }
            assert(log_timestamps_ordered(post.log)) by {
                assert(forall|i: int|
                    0 <= i < pre.log.len() ==> (#[trigger] post.log[i]) == pre.log[i]);
                assert(post.log[post.log.len() - 1] == tx);
            }
            assert(log_refs_exist(post)) by {
                assert(forall|i: int|
                    0 <= i < pre.log.len() ==> (#[trigger] post.log[i]) == pre.log[i]);
                assert(post.log[post.log.len() - 1] == tx);
                assert(post.accounts == pre.accounts);
            }
        }
        Ok(tid)
    }

    /// The transfer engine. Moves `amount` from the source account to the
    /// destination and records one `Deposit` ledger entry; when
    /// `is_bank_agent` holds, the source is the bank's float, its balance
    /// neither checked nor touched, and the entry carries no source.
    /// The whole unit commits atomically or not at all.
    pub fn make_deposit(
        &mut self,
        from_account_id: &str,
        to_account_id: &str,
        amount: u64,
        is_bank_agent: bool,
        now: u64,
    ) -> (r: Result<(), ErrorCode>)
        requires
            bank_inv(old(self)@),
        ensures
            bank_inv(final(self)@),
            bank_balanced(old(self)@) ==> bank_balanced(final(self)@),
            final(self)@ == spec_make_deposit(
                old(self)@,
                from_account_id.spec_bytes(),
                to_account_id.spec_bytes(),
                amount,
                is_bank_agent,
                now,
            ).0,
            r == spec_make_deposit(
                old(self)@,
                from_account_id.spec_bytes(),
                to_account_id.spec_bytes(),
                amount,
                is_bank_agent,
                now,
            ).1,
    {
        let f = match parse_doc_id(from_account_id) {
            Some(x) => x,
            None => {
                return Err(ErrorCode::InvalidArgument);
            },
        };
        let t = match parse_doc_id(to_account_id) {
            Some(x) => x,
            None => {
                return Err(ErrorCode::InvalidArgument);
            },
        };
        if amount == 0 {
            return Err(ErrorCode::InvalidArgument);
        }
        if f == t {
            return Err(ErrorCode::InvalidArgument);
        }
        proof {
            lemma_account_map_contains(self@.accounts, f);
            lemma_account_map_contains(self@.accounts, t);
        }
        // Every precondition is checked before the first write, so the
        // unit never needs compensation: it commits whole or not at all.
        if !is_bank_agent {
            let fi = match self.find_account(f) {
                Some(i) => i,
                None => {
                    return Err(ErrorCode::NotFound);
                },
            };
            proof {
                lemma_account_map_index(self@.accounts, fi as int);
            }
            if self.accounts[fi].balance < amount {
                return Err(ErrorCode::FailedPrecondition);
            }
        }
        let ti = match self.find_account(t) {
            Some(i) => i,
            None => {
                return Err(ErrorCode::NotFound);
            },
        };
        proof {
            lemma_account_map_index(self@.accounts, ti as int);
        }
        if amount > u64::MAX - self.accounts[ti].balance {
            return Err(ErrorCode::Internal);
        }
        if self.transactions.len() as u64 == u64::MAX {
            return Err(ErrorCode::Internal);
        }
        let ghost pre = self@;
        if !is_bank_agent {
            let debited = self.conditional_debit(f, amount, now);
            proof {
                assert(debited is Ok);
            }
        }
        let ghost v1 = self@;
        let credited = self.credit(t, amount, now);
        proof {
            assert(account_map(v1)[t] == account_map(pre)[t]) by {
                if !is_bank_agent {
                    let fi = account_index(pre.accounts, f);
                    lemma_account_map_contains(pre.accounts, f);
                    lemma_account_index(
                        pre.accounts,
                        choose|i: int| 0 <= i < pre.accounts.len() && pre.accounts[i].id == f,
                    );
                    lemma_balance_write_map(
                        pre,
                        fi,
                        upd_balance(
                            pre.accounts[fi],
                            (pre.accounts[fi].balance - amount) as u64,
                            now,
                        ),
                    );
                }
            }
            assert(credited is Ok);
        }
        let source = if is_bank_agent {
            None
        } else {
            Some(f)
        };
        let ghost v2 = self@;
        let appended = self.append(TxKind::Deposit, source, Some(t), amount, now);
        proof {
            assert(appended is Ok);
            let spec_post = spec_make_deposit(
                pre,
                from_account_id.spec_bytes(),
                to_account_id.spec_bytes(),
                amount,
                is_bank_agent,
                now,
            ).0;
            assert(self@ =~= spec_post);
            if bank_balanced(pre) {
                lemma_deposit_success_balanced(pre, f, t, amount, is_bank_agent, now);
            }
        }
        Ok(())
    }

    /// The withdrawal engine. Debits the account only if its balance
    /// covers the amount, records one `Withdrawal` ledger entry, and
    /// answers the entry's id. The whole unit commits atomically or not
    /// at all.
    pub fn make_withdrawal(&mut self, account_id: &str, amount: u64, now: u64) -> (r: Result<
        u64,
        ErrorCode,
    >)
        requires
            bank_inv(old(self)@),
        ensures
            bank_inv(final(self)@),
            bank_balanced(old(self)@) ==> bank_balanced(final(self)@),
            final(self)@ == spec_make_withdrawal(
                old(self)@,
                account_id.spec_bytes(),
                amount,
                now,
            ).0,
            r == spec_make_withdrawal(old(self)@, account_id.spec_bytes(), amount, now).1,
    {
        let a = match parse_doc_id(account_id) {
            Some(x) => x,
            None => {
                return Err(ErrorCode::InvalidArgument);
            },
        };
        if amount == 0 {
            return Err(ErrorCode::InvalidArgument);
        }
        proof {
            lemma_account_map_contains(self@.accounts, a);
        }
        let ai = match self.find_account(a) {
            Some(i) => i,
            None => {
                return Err(ErrorCode::NotFound);
            },
        };
        proof {
            lemma_account_map_index(self@.accounts, ai as int);
        }
        if self.accounts[ai].balance < amount {
            return Err(ErrorCode::FailedPrecondition);
        }
        if self.transactions.len() as u64 == u64::MAX {
            return Err(ErrorCode::Internal);
        }
        let ghost pre = self@;
        let debited = self.conditional_debit(a, amount, now);
        proof {
            assert(debited is Ok);
        }
        let tid = match self.append(TxKind::Withdrawal, Some(a), None, amount, now) {
            Ok(tid) => tid,
            Err(_) => {
                proof {
                    assert(false);
                }
                return Err(ErrorCode::Internal);
            },
        };
        proof {
            let spec_post = spec_make_withdrawal(pre, account_id.spec_bytes(), amount, now).0;
            assert(self@ =~= spec_post);
            if bank_balanced(pre) {
                lemma_withdrawal_success_balanced(pre, a, amount, now);
            }
        }
        Ok(tid)
    }

    /// The history read model: the ledger entries naming the account,
    /// newest first. Reads mutate nothing, so reading is observationally
    /// idempotent.
    pub fn get_transaction_history(&self, account_id: &str) -> (r: Result<
        Vec<Transaction>,
        ErrorCode,
    >)
        ensures
            !valid_doc_id_bytes(account_id.spec_bytes()) ==> r == Err::<Vec<Transaction>, ErrorCode>(
                ErrorCode::InvalidArgument,
            ),
            valid_doc_id_bytes(account_id.spec_bytes()) ==> (r matches Ok(h) && h@ == history_of(
                self@.log,
                doc_id_of_bytes(account_id.spec_bytes()),
            )),
    {
        let id = match parse_doc_id(account_id) {
            Some(x) => x,
            None => {
                return Err(ErrorCode::InvalidArgument);
            },
        };
        let n = self.transactions.len();
        let mut out: Vec<Transaction> = Vec::new();
        let mut k: usize = n;
        proof {
            assert(self@.log.take(n as int) =~= self@.log);
            assert(out@ + history_of(self@.log.take(n as int), id) =~= history_of(self@.log, id));
        }
        while k > 0
            invariant
                n == self@.log.len(),
                0 <= k <= n,
                history_of(self@.log, id) == out@ + history_of(self@.log.take(k as int), id),
            decreases k,
        {
            k = k - 1;
            proof {
                let taken = self@.log.take(k + 1);
                assert(taken.drop_last() =~= self@.log.take(k as int));
                assert(taken.last() == self@.log[k as int]);
            }
            let tx = self.transactions[k];
            let hit = match tx.from_account {
                Some(x) => x == id,
                None => false,
            } || match tx.to_account {
                Some(x) => x == id,
                None => false,
            };
            if hit {
                out.push(tx);
                proof {
                    assert(seq![self@.log[k as int]] + history_of(self@.log.take(k as int), id)
                        =~= out@.subrange(out@.len() - 1, out@.len() as int) + history_of(
                        self@.log.take(k as int),
                        id,
                    ));
                    assert(history_of(self@.log, id) =~= out@ + history_of(
                        self@.log.take(k as int),
                        id,
                    ));
                }
            }
        }
        proof {
            assert(self@.log.take(0) =~= Seq::<Transaction>::empty());
            assert(out@ + history_of(self@.log.take(0), id) =~= out@);
        }
        Ok(out)
    }

    /// Index of the user carrying the login name, if any.
    fn find_user_by_username(&self, username: &String) -> (r: Option<usize>)
        ensures
            r matches Some(i) ==> 0 <= i < self@.users.len() && self@.users[i as int].username@
                == username@,
            r is None ==> !username_taken(self@.users, username@),
    {
        let n = self.users.len();
        let mut i: usize = 0;
        while i < n
            invariant
                n == self@.users.len(),
                0 <= i <= n,
                forall|j: int| 0 <= j < i ==> (#[trigger] self@.users[j]).username@ != username@,
            decreases n - i,
        {
            if self.users[i].username == *username {
                return Some(i);
            }
            i = i + 1;
        }
        None
    }

    /// Index of the user carrying the stable uuid, if any.
    fn find_user_by_uuid(&self, uuid: &String) -> (r: Option<usize>)
        ensures
            r matches Some(i) ==> 0 <= i < self@.users.len() && self@.users[i as int].uuid@
                == uuid@,
            r is None ==> !uuid_taken(self@.users, uuid@),
    {
        let n = self.users.len();
        let mut i: usize = 0;
        while i < n
            invariant
                n == self@.users.len(),
                0 <= i <= n,
                forall|j: int| 0 <= j < i ==> (#[trigger] self@.users[j]).uuid@ != uuid@,
            decreases n - i,
        {
            if self.users[i].uuid == *uuid {
                return Some(i);
            }
            i = i + 1;
        }
        None
    }

    /// Index of the user carrying the document id, if any.
    fn find_user_by_id(&self, id: DocId) -> (r: Option<usize>)
        ensures
            r matches Some(i) ==> 0 <= i < self@.users.len() && self@.users[i as int].id == id,
            r is None ==> !user_id_present(self@.users, id),
    {
        let n = self.users.len();
        let mut i: usize = 0;
        while i < n
            invariant
                n == self@.users.len(),
                0 <= i <= n,
                forall|j: int| 0 <= j < i ==> (#[trigger] self@.users[j]).id != id,
            decreases n - i,
        {
            if self.users[i].id == id {
                return Some(i);
            }
            i = i + 1;
        }
        None
    }

    /// Registers a user under the given stable uuid. Login names are
    /// unique, so a taken name is rejected; a taken uuid is a store
    /// failure, since uuids are drawn to be globally unique.
    pub fn create_user_with_uuid(&mut self, uuid: &String, username: &String, password: &String)
        -> (r: Result<User, ErrorCode>)
        requires
            bank_inv(old(self)@),
        ensures
            bank_inv(final(self)@),
            final(self)@.accounts == old(self)@.accounts,
            final(self)@.log == old(self)@.log,
            final(self)@.last_timestamp == old(self)@.last_timestamp,
            username_taken(old(self)@.users, username@) ==> r == Err::<User, ErrorCode>(
                ErrorCode::InvalidArgument,
            ) && final(self)@ == old(self)@,
            !username_taken(old(self)@.users, username@) && (uuid_taken(old(self)@.users, uuid@)
                || old(self)@.next_seq == u64::MAX) ==> r == Err::<User, ErrorCode>(
                ErrorCode::Internal,
            ) && final(self)@ == old(self)@,
            !username_taken(old(self)@.users, username@) && !uuid_taken(old(self)@.users, uuid@)
                && old(self)@.next_seq < u64::MAX ==> {
                &&& (r matches Ok(u) && u == final(self)@.users.last())
                &&& final(self)@.users == old(self)@.users.push(final(self)@.users.last())
                &&& ({
                    let u = final(self)@.users.last();
                    &&& u.id == doc_id_of_seq(old(self)@.next_seq)
                    &&& u.uuid@ == uuid@
                    &&& u.username@ == username@
                    &&& u.password@ == password@
                })
                &&& final(self)@.next_seq == old(self)@.next_seq + 1
            },
    {
        if self.find_user_by_username(username).is_some() {
            return Err(ErrorCode::InvalidArgument);
        }
        if self.find_user_by_uuid(uuid).is_some() {
            return Err(ErrorCode::Internal);
        }
        if self.next_seq == u64::MAX {
            return Err(ErrorCode::Internal);
        }
        let id = DocId { hi: 0, lo: self.next_seq };
        let u = User {
            id,
            uuid: uuid.clone(),
            username: username.clone(),
            password: password.clone(),
        };
        let out = u.clone();
        self.users.push(u);
        self.next_seq = self.next_seq + 1;
        proof {
            let pre = old(self)@;
            let post = self@;
            assert(post.users[post.users.len() - 1] == post.users.last());
            assert(forall|p: int|
                0 <= p < pre.users.len() ==> (#[trigger] post.users[p]) == pre.users[p]);
            assert(account_map(post) == account_map(pre));
        }
        Ok(out)
    }

    /// Registers a user, drawing a fresh random stable uuid. The drawn
    /// uuid decides nothing but itself: a taken login name is rejected
    /// whatever was drawn, and on success the stored record carries the
    /// answered uuid.
    pub fn create_user(&mut self, username: &String, password: &String) -> (r: Result<
        User,
        ErrorCode,
    >)
        requires
            bank_inv(old(self)@),
        ensures
            bank_inv(final(self)@),
            final(self)@.accounts == old(self)@.accounts,
            final(self)@.log == old(self)@.log,
            final(self)@.last_timestamp == old(self)@.last_timestamp,
            username_taken(old(self)@.users, username@) ==> r == Err::<User, ErrorCode>(
                ErrorCode::InvalidArgument,
            ) && final(self)@ == old(self)@,
            !username_taken(old(self)@.users, username@) ==> (r matches Err(e) ==> e
                == ErrorCode::Internal && final(self)@ == old(self)@),
            r matches Ok(u) ==> {
                &&& u == final(self)@.users.last()
                &&& final(self)@.users == old(self)@.users.push(u)
                &&& u.id == doc_id_of_seq(old(self)@.next_seq)
                &&& u.uuid@.len() == 36
                &&& crate::wrappers::uuid_accepted(u.uuid@)
                &&& u.username@ == username@
                &&& u.password@ == password@
                &&& final(self)@.next_seq == old(self)@.next_seq + 1
            },
    {
        let uuid = crate::wrappers::new_uuid();
        self.create_user_with_uuid(&uuid, username, password)
    }

    /// Looks a user up by login name, as the login flow does.
    pub fn get_user_by_username(&self, username: &String) -> (r: Result<User, ErrorCode>)
        requires
            bank_inv(self@),
        ensures
            username_taken(self@.users, username@) ==> (r matches Ok(u) && u == user_with_username(
                self@.users,
                username@,
            )),
            !username_taken(self@.users, username@) ==> r == Err::<User, ErrorCode>(
                ErrorCode::NotFound,
            ),
    {
        match self.find_user_by_username(username) {
            Some(i) => {
                proof {
                    let j = choose|j: int|
                        0 <= j < self@.users.len() && (#[trigger] self@.users[j]).username@
                            == username@;
                    assert(self@.users[j].username@ == self@.users[i as int].username@);
                    assert(j == i as int);
                }
                Ok(self.users[i].clone())
            },
            None => Err(ErrorCode::NotFound),
        }
    }

    /// Looks a user up by stable uuid, as the token-authenticated
    /// identity flow does.
    pub fn get_user_by_uuid(&self, uuid: &String) -> (r: Result<User, ErrorCode>)
        requires
            bank_inv(self@),
        ensures
            uuid_taken(self@.users, uuid@) ==> (r matches Ok(u) && u == user_with_uuid(
                self@.users,
                uuid@,
            )),
            !uuid_taken(self@.users, uuid@) ==> r == Err::<User, ErrorCode>(ErrorCode::NotFound),
    {
        match self.find_user_by_uuid(uuid) {
            Some(i) => {
                proof {
                    let j = choose|j: int|
                        0 <= j < self@.users.len() && (#[trigger] self@.users[j]).uuid@ == uuid@;
                    assert(self@.users[j].uuid@ == self@.users[i as int].uuid@);
                    assert(j == i as int);
                }
                Ok(self.users[i].clone())
            },
            None => Err(ErrorCode::NotFound),
        }
    }

    /// Rewrites a user's login name and password, keyed by the opaque
    /// document id. Answers whether a stored record changed. A rewrite
    /// that would duplicate another user's login name is rejected, since
    /// login names are unique.
    pub fn update_user(&mut self, id: &str, username: &String, password: &String) -> (r: Result<
        bool,
        ErrorCode,
    >)
        requires
            bank_inv(old(self)@),
        ensures
            bank_inv(final(self)@),
            final(self)@.accounts == old(self)@.accounts,
            final(self)@.log == old(self)@.log,
            !valid_doc_id_bytes(id.spec_bytes()) ==> r == Err::<bool, ErrorCode>(
                ErrorCode::InvalidArgument,
            ) && final(self)@ == old(self)@,
            valid_doc_id_bytes(id.spec_bytes()) && !user_id_present(
                old(self)@.users,
                doc_id_of_bytes(id.spec_bytes()),
            ) ==> r == Ok::<bool, ErrorCode>(false) && final(self)@ == old(self)@,
            valid_doc_id_bytes(id.spec_bytes()) && user_id_present(
                old(self)@.users,
                doc_id_of_bytes(id.spec_bytes()),
            ) ==> {
                let i = user_index_of_id(old(self)@.users, doc_id_of_bytes(id.spec_bytes()));
                let stored = old(self)@.users[i];
                if exists|j: int|
                    0 <= j < old(self)@.users.len() && j != i && (#[trigger] old(
                        self,
                    )@.users[j]).username@ == username@ {
                    r == Err::<bool, ErrorCode>(ErrorCode::InvalidArgument) && final(self)@ == old(
                        self,
                    )@
                } else {
                    &&& final(self)@.users == old(self)@.users.update(i, final(self)@.users[i])
                    &&& ({
                        let u = final(self)@.users[i];
                        &&& u.id == stored.id
                        &&& u.uuid == stored.uuid
                        &&& u.username@ == username@
                        &&& u.password@ == password@
                    })
                    &&& r == Ok::<bool, ErrorCode>(
                        stored.username@ != username@ || stored.password@ != password@,
                    )
                    &&& final(self)@.next_seq == old(self)@.next_seq
                    &&& final(self)@.last_timestamp == old(self)@.last_timestamp
                }
            },
    {
        let did = match parse_doc_id(id) {
            Some(x) => x,
            None => {
                return Err(ErrorCode::InvalidArgument);
            },
        };
        let i = match self.find_user_by_id(did) {
            Some(i) => i,
            None => {
                return Ok(false);
            },
        };
        proof {
            let j = user_index_of_id(self@.users, did);
            assert(0 <= j < self@.users.len() && self@.users[j].id == did);
            assert(j == i as int);
        }
        match self.find_user_by_username(username) {
            Some(k) => {
                if k != i {
                    return Err(ErrorCode::InvalidArgument);
                }
            },
            None => {},
        }
        let stored = &self.users[i];
        let changed = !(stored.username == *username) || !(stored.password == *password);
        let updated = User {
            id: stored.id,
            uuid: stored.uuid.clone(),
            username: username.clone(),
            password: password.clone(),
        };
        self.users.set(i, updated);
        proof {
            let pre = old(self)@;
            let post = self@;
            assert(forall|p: int|
                0 <= p < post.users.len() && p != i as int ==> (#[trigger] post.users[p])
                    == pre.users[p]);
            assert(usernames_unique(post.users)) by {
                assert(forall|p: int, q: int|
                    0 <= p < q < post.users.len() && p != i as int && q != i as int ==> (
                    #[trigger] post.users[p]).username@ != (#[trigger] post.users[q]).username@);
            }
        }
        Ok(changed)
    }

    /// Removes a user, keyed by the opaque document id. Answers whether a
    /// record was removed.
    pub fn delete_user(&mut self, id: &str) -> (r: Result<bool, ErrorCode>)
        requires
            bank_inv(old(self)@),
        ensures
            bank_inv(final(self)@),
            final(self)@.accounts == old(self)@.accounts,
            final(self)@.log == old(self)@.log,
            !valid_doc_id_bytes(id.spec_bytes()) ==> r == Err::<bool, ErrorCode>(
                ErrorCode::InvalidArgument,
            ) && final(self)@ == old(self)@,
            valid_doc_id_bytes(id.spec_bytes()) && !user_id_present(
                old(self)@.users,
                doc_id_of_bytes(id.spec_bytes()),
            ) ==> r == Ok::<bool, ErrorCode>(false) && final(self)@ == old(self)@,
            valid_doc_id_bytes(id.spec_bytes()) && user_id_present(
                old(self)@.users,
                doc_id_of_bytes(id.spec_bytes()),
            ) ==> {
                &&& r == Ok::<bool, ErrorCode>(true)
                &&& final(self)@.users == old(self)@.users.remove(
                    user_index_of_id(old(self)@.users, doc_id_of_bytes(id.spec_bytes())),
                )
                &&& final(self)@.next_seq == old(self)@.next_seq
                &&& final(self)@.last_timestamp == old(self)@.last_timestamp
            },
    {
        let did = match parse_doc_id(id) {
            Some(x) => x,
            None => {
                return Err(ErrorCode::InvalidArgument);
            },
        };
        let i = match self.find_user_by_id(did) {
            Some(i) => i,
            None => {
                return Ok(false);
            },
        };
        proof {
            let j = user_index_of_id(self@.users, did);
            assert(0 <= j < self@.users.len() && self@.users[j].id == did);
            assert(j == i as int);
        }
        let _removed = self.users.remove(i);
        proof {
            let pre = old(self)@;
            let post = self@;
            assert(forall|p: int|
                0 <= p < post.users.len() ==> (#[trigger] post.users[p]) == (if p < i as int {
                    pre.users[p]
                } else {
                    pre.users[p + 1]
                }));
        }
        Ok(true)
    }
}

/// A successful withdrawal keeps the ledger equation: the debited account
/// loses exactly what its new entry charges, and every other account is
/// untouched by both the balances and the new entry.
pub proof fn lemma_withdrawal_success_balanced(v: BankView, a: DocId, amount: u64, now: u64)
    requires
        bank_inv(v),
        bank_balanced(v),
        amount > 0,
        account_map(v).dom().contains(a),
        account_map(v)[a].balance >= amount,
        v.log.len() + 1 <= u64::MAX,
    ensures
        bank_balanced(
            append_view(
                debit_view(v, a, amount, now),
                TxKind::Withdrawal,
                Some(a),
                None,
                amount,
                now,
            ),
        ),
{
    let v1 = debit_view(v, a, amount, now);
    let v2 = append_view(v1, TxKind::Withdrawal, Some(a), None, amount, now);
    let tx = appended_tx(v1, TxKind::Withdrawal, Some(a), None, amount, now);
    lemma_account_map_contains(v.accounts, a);
    let ai = choose|i: int| 0 <= i < v.accounts.len() && v.accounts[i].id == a;
    lemma_account_index(v.accounts, ai);
    lemma_account_map_index(v.accounts, ai);
    lemma_balance_write_map(v, ai, v1.accounts[ai]);
    assert forall|j: int| 0 <= j < v2.accounts.len() implies (#[trigger] v2.accounts[j]).balance
        as int == credits(v2.log, v2.accounts[j].id) - debits(v2.log, v2.accounts[j].id) by {
        lemma_credits_push(v1.log, tx, v2.accounts[j].id);
        assert(v1.log == v.log);
        assert(v2.accounts == v1.accounts);
        if j == ai {
            assert(v2.accounts[j].id == a);
            assert(v2.accounts[j].balance == account_map(v)[a].balance - amount);
        } else {
            assert(v2.accounts[j] == v.accounts[j]);
            assert(v2.accounts[j].id != a) by {
                lemma_account_index(v.accounts, j);
            }
        }
    }
}

/// A successful transfer keeps the ledger equation: the debited source
/// loses what its debit entry charges, the credited destination gains
/// what its credit entry grants, and every other account is untouched by
/// both the balances and the new entry.
pub proof fn lemma_deposit_success_balanced(
    v: BankView,
    f: DocId,
    t: DocId,
    amount: u64,
    is_bank_agent: bool,
    now: u64,
)
    requires
        bank_inv(v),
        bank_balanced(v),
        f != t,
        amount > 0,
        account_map(v).dom().contains(t),
        !is_bank_agent ==> account_map(v).dom().contains(f) && account_map(v)[f].balance >= amount,
        account_map(v)[t].balance + amount <= u64::MAX,
        v.log.len() + 1 <= u64::MAX,
    ensures
        ({
            let v1 = if is_bank_agent {
                v
            } else {
                debit_view(v, f, amount, now)
            };
            let v2 = credit_view(v1, t, amount, now);
            let source = if is_bank_agent {
                Option::<DocId>::None
            } else {
                Some(f)
            };
            bank_balanced(append_view(v2, TxKind::Deposit, source, Some(t), amount, now))
        }),
{
    let v1 = if is_bank_agent {
        v
    } else {
        debit_view(v, f, amount, now)
    };
    let v2 = credit_view(v1, t, amount, now);
    let source = if is_bank_agent {
        Option::<DocId>::None
    } else {
        Some(f)
    };
    let v3 = append_view(v2, TxKind::Deposit, source, Some(t), amount, now);
    let tx = appended_tx(v2, TxKind::Deposit, source, Some(t), amount, now);
    if !is_bank_agent {
        lemma_account_map_contains(v.accounts, f);
        let fi = choose|i: int| 0 <= i < v.accounts.len() && v.accounts[i].id == f;
        lemma_account_index(v.accounts, fi);
        lemma_account_map_index(v.accounts, fi);
        lemma_balance_write_map(v, fi, v1.accounts[fi]);
    }
    lemma_account_map_contains(v1.accounts, t);
    assert(account_map(v1).dom() =~= account_map(v).dom()) by {
        if !is_bank_agent {
            assert(account_map(v1) == account_map(v).insert(
                f,
                v1.accounts[account_index(v.accounts, f)],
            ));
            lemma_account_map_contains(v.accounts, f);
        }
    }
    let ti = choose|i: int| 0 <= i < v1.accounts.len() && v1.accounts[i].id == t;
    lemma_account_index(v1.accounts, ti);
    lemma_account_map_index(v1.accounts, ti);
    lemma_balance_write_map(v1, ti, v2.accounts[ti]);
    assert forall|j: int| 0 <= j < v3.accounts.len() implies (#[trigger] v3.accounts[j]).balance
        as int == credits(v3.log, v3.accounts[j].id) - debits(v3.log, v3.accounts[j].id) by {
        lemma_credits_push(v2.log, tx, v3.accounts[j].id);
        assert(v2.log == v.log);
        assert(v3.accounts == v2.accounts);
        if !is_bank_agent && j == account_index(v.accounts, f) {
            assert(v3.accounts[j].id == f);
            assert(v3.accounts[j].balance == account_map(v)[f].balance - amount);
        } else if j == ti {
            assert(v3.accounts[j].id == t);
            assert(v1.accounts[j].balance == account_map(v)[t].balance);
            assert(v3.accounts[j].balance == account_map(v)[t].balance + amount);
            assert(v.accounts[j].id == t);
        } else {
            assert(v3.accounts[j] == v.accounts[j]);
            assert(v3.accounts[j].id != t) by {
                lemma_account_index(v1.accounts, j);
            }
            if !is_bank_agent {
                assert(v3.accounts[j].id != f) by {
                    lemma_account_index(v.accounts, j);
                }
            }
        }
    }
}

} // verus!
