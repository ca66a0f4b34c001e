//! The laws of the money subsystem, stated and proved over the store's
//! mathematical model: non-negativity of balances along any run,
//! conservation of transfers, agent issuance, ledger completeness,
//! history ordering, and idempotence of reads.

use vstd::prelude::*;

use crate::bank::{
    account_map, append_view, apply_op, apply_ops, bank_balanced, bank_inv, credit_view,
    credits, debit_view, debits, history_of, initial_bank, lemma_account_index,
    lemma_account_map_contains, lemma_account_map_index, lemma_account_map_push,
    lemma_balance_write_map, lemma_credits_absent, lemma_credits_push, lemma_debits_absent,
    lemma_deposit_success_balanced, lemma_withdrawal_success_balanced, log_timestamps_ordered,
    spec_make_deposit, spec_make_withdrawal, BankOp, BankView,
};
use crate::model::{Account, Transaction, TxKind};
use crate::oid::{doc_id_of_bytes, DocId};

verus! {

/// A successful append keeps the store well-formed.
pub proof fn lemma_append_view_inv(
    v: BankView,
    kind: TxKind,
    from_account: Option<DocId>,
    to_account: Option<DocId>,
    amount: u64,
    now: u64,
)
    requires
        bank_inv(v),
        amount > 0,
        kind is Withdrawal ==> from_account is Some && to_account is None,
        kind is Deposit ==> to_account is Some,
        from_account matches Some(a) ==> account_map(v).dom().contains(a),
        to_account matches Some(a) ==> account_map(v).dom().contains(a),
        v.log.len() + 1 <= u64::MAX,
    ensures
        bank_inv(append_view(v, kind, from_account, to_account, amount, now)),
{
    let w = append_view(v, kind, from_account, to_account, amount, now);
    assert(forall|i: int| 0 <= i < v.log.len() ==> (#[trigger] w.log[i]) == v.log[i]);
    assert(w.log[w.log.len() - 1] == w.log.last());
    assert(w.accounts == v.accounts);
}

/// A successful transfer keeps the store well-formed.
pub proof fn lemma_deposit_inv(
    v: BankView,
    from: Seq<u8>,
    to: Seq<u8>,
    amount: u64,
    is_bank_agent: bool,
    now: u64,
)
    requires
        bank_inv(v),
    ensures
        bank_inv(spec_make_deposit(v, from, to, amount, is_bank_agent, now).0),
        bank_balanced(v) ==> bank_balanced(spec_make_deposit(v, from, to, amount, is_bank_agent, now).0),
{
    let outcome = spec_make_deposit(v, from, to, amount, is_bank_agent, now);
    if outcome.1 is Ok {
        let f = doc_id_of_bytes(from);
        let t = doc_id_of_bytes(to);
        let v1 = if is_bank_agent {
            v
        } else {
            debit_view(v, f, amount, now)
        };
        if !is_bank_agent {
            lemma_account_map_contains(v.accounts, f);
            let fi = choose|i: int| 0 <= i < v.accounts.len() && v.accounts[i].id == f;
            lemma_account_index(v.accounts, fi);
            lemma_account_map_index(v.accounts, fi);
            lemma_balance_write_map(v, fi, v1.accounts[fi]);
            assert(account_map(v1).dom() =~= account_map(v).dom());
        }
        let v2 = credit_view(v1, t, amount, now);
        lemma_account_map_contains(v1.accounts, t);
        let ti = choose|i: int| 0 <= i < v1.accounts.len() && v1.accounts[i].id == t;
        lemma_account_index(v1.accounts, ti);
        lemma_account_map_index(v1.accounts, ti);
        lemma_balance_write_map(v1, ti, v2.accounts[ti]);
        assert(account_map(v2).dom() =~= account_map(v1).dom());
        let source = if is_bank_agent {
            Option::<DocId>::None
        } else {
            Some(f)
        };
        lemma_append_view_inv(v2, TxKind::Deposit, source, Some(t), amount, now);
        if bank_balanced(v) {
            lemma_deposit_success_balanced(v, f, t, amount, is_bank_agent, now);
        }
    }
}

/// A successful withdrawal keeps the store well-formed.
pub proof fn lemma_withdrawal_inv(v: BankView, account: Seq<u8>, amount: u64, now: u64)
    requires
        bank_inv(v),
    ensures
        bank_inv(spec_make_withdrawal(v, account, amount, now).0),
        bank_balanced(v) ==> bank_balanced(spec_make_withdrawal(v, account, amount, now).0),
{
    let outcome = spec_make_withdrawal(v, account, amount, now);
    if outcome.1 is Ok {
        let a = doc_id_of_bytes(account);
        lemma_account_map_contains(v.accounts, a);
        let ai = choose|i: int| 0 <= i < v.accounts.len() && v.accounts[i].id == a;
        lemma_account_index(v.accounts, ai);
        lemma_account_map_index(v.accounts, ai);
        let v1 = debit_view(v, a, amount, now);
        lemma_balance_write_map(v, ai, v1.accounts[ai]);
        assert(account_map(v1).dom() =~= account_map(v).dom());
        lemma_append_view_inv(v1, TxKind::Withdrawal, Some(a), None, amount, now);
        if bank_balanced(v) {
            lemma_withdrawal_success_balanced(v, a, amount, now);
        }
    }
}

/// Creating an account keeps the store well-formed and the ledger
/// equation: the new account starts at zero, and the ledger, which only
/// names existing accounts, cannot yet name it.
pub proof fn lemma_create_account_inv(v: BankView, a: Account)
    requires
        bank_inv(v),
    ensures
        bank_inv(crate::bank::apply_create_account(v, a)),
        bank_balanced(v) ==> bank_balanced(crate::bank::apply_create_account(v, a)),
{
    let w = crate::bank::apply_create_account(v, a);
    if v.next_seq < u64::MAX {
        let stored = w.accounts.last();
        assert(forall|p: int| 0 <= p < v.accounts.len() ==> (#[trigger] w.accounts[p]) == v.accounts[p]);
        assert(w.accounts[w.accounts.len() - 1] == stored);
        lemma_account_map_push(v.accounts, stored);
        lemma_account_map_contains(v.accounts, stored.id);
        assert(bank_inv(w)) by {
            assert(account_map(w).dom() =~= account_map(v).dom().insert(stored.id));
            assert(forall|p: int| 0 <= p < w.log.len() ==> (#[trigger] w.log[p]) == v.log[p]);
        }
        if bank_balanced(v) {
            assert(forall|p: int|
                0 <= p < v.log.len() ==> (#[trigger] v.log[p]).to_account != Some(stored.id)
                    && v.log[p].from_account != Some(stored.id));
            lemma_credits_absent(w.log, stored.id);
            lemma_debits_absent(w.log, stored.id);
        }
    }
}

/// Every operation keeps the store well-formed and keeps the ledger
/// equation once it holds.
pub proof fn lemma_op_preserves(v: BankView, op: BankOp)
    requires
        bank_inv(v),
    ensures
        bank_inv(apply_op(v, op)),
        bank_balanced(v) ==> bank_balanced(apply_op(v, op)),
{
    match op {
        BankOp::CreateAccount { record } => lemma_create_account_inv(v, record),
        BankOp::Deposit { from, to, amount, is_bank_agent, now } => lemma_deposit_inv(
            v,
            from,
            to,
            amount,
            is_bank_agent,
            now,
        ),
        BankOp::Withdrawal { account, amount, now } => lemma_withdrawal_inv(
            v,
            account,
            amount,
            now,
        ),
    }
}

/// Balance non-negativity, and the ledger equation, along any run: after
/// any sequence of accepted operations from the empty store, the store
/// is well-formed, every balance equals its ledger credits minus its
/// ledger debits, and no balance is negative. Every prefix of a run is
/// itself a run, so this holds at every observable point.
pub proof fn lemma_balance_nonnegative(ops: Seq<BankOp>)
    ensures
        bank_inv(apply_ops(initial_bank(), ops)),
        bank_balanced(apply_ops(initial_bank(), ops)),
        forall|i: int|
            0 <= i < apply_ops(initial_bank(), ops).accounts.len() ==> (#[trigger] apply_ops(
                initial_bank(),
                ops,
            ).accounts[i]).balance >= 0,
        forall|i: int|
            0 <= i < apply_ops(initial_bank(), ops).accounts.len() ==> (#[trigger] apply_ops(
                initial_bank(),
                ops,
            ).accounts[i]).balance as int == credits(
                apply_ops(initial_bank(), ops).log,
                apply_ops(initial_bank(), ops).accounts[i].id,
            ) - debits(
                apply_ops(initial_bank(), ops).log,
                apply_ops(initial_bank(), ops).accounts[i].id,
            ),
{
    lemma_run_preserves(initial_bank(), ops);
}

/// Any sequence of operations from a well-formed state ends in a
/// well-formed state, and keeps the ledger equation once it holds.
pub proof fn lemma_run_preserves(v: BankView, ops: Seq<BankOp>)
    requires
        bank_inv(v),
    ensures
        bank_inv(apply_ops(v, ops)),
        bank_balanced(v) ==> bank_balanced(apply_ops(v, ops)),
    decreases ops.len(),
{
    if ops.len() > 0 {
        lemma_run_preserves(v, ops.drop_last());
        lemma_op_preserves(apply_ops(v, ops.drop_last()), ops.last());
    }
}

/// Conservation: a successful non-agent transfer moves value, it does
/// not create or destroy it — the source and destination balances sum to
/// what they summed to before.
pub proof fn lemma_transfer_conservation(
    v: BankView,
    from: Seq<u8>,
    to: Seq<u8>,
    amount: u64,
    now: u64,
)
    requires
        bank_inv(v),
        spec_make_deposit(v, from, to, amount, false, now).1 is Ok,
    ensures
        ({
            let w = spec_make_deposit(v, from, to, amount, false, now).0;
            let f = doc_id_of_bytes(from);
            let t = doc_id_of_bytes(to);
            &&& account_map(w).dom() == account_map(v).dom()
            &&& account_map(w)[f].balance + account_map(w)[t].balance == account_map(v)[f].balance
                + account_map(v)[t].balance
        }),
{
    let w = spec_make_deposit(v, from, to, amount, false, now).0;
    let f = doc_id_of_bytes(from);
    let t = doc_id_of_bytes(to);
    let v1 = debit_view(v, f, amount, now);
    lemma_account_map_contains(v.accounts, f);
    let fi = choose|i: int| 0 <= i < v.accounts.len() && v.accounts[i].id == f;
    lemma_account_index(v.accounts, fi);
    lemma_account_map_index(v.accounts, fi);
    lemma_balance_write_map(v, fi, v1.accounts[fi]);
    let v2 = credit_view(v1, t, amount, now);
    lemma_account_map_contains(v1.accounts, t);
    let ti = choose|i: int| 0 <= i < v1.accounts.len() && v1.accounts[i].id == t;
    lemma_account_index(v1.accounts, ti);
    lemma_account_map_index(v1.accounts, ti);
    lemma_balance_write_map(v1, ti, v2.accounts[ti]);
    assert(account_map(w) == account_map(v2));
    assert(account_map(w).dom() =~= account_map(v).dom());
    assert(v1.accounts[ti].id == t && v.accounts[ti].id == t);
    assert(v1.accounts[ti].balance == account_map(v)[t].balance) by {
        lemma_account_map_index(v.accounts, ti);
    }
}

/// Agent issuance: a successful agent transfer of `amount` raises the
/// destination's balance by exactly that, and leaves every other account
/// unchanged.
pub proof fn lemma_agent_issuance(v: BankView, from: Seq<u8>, to: Seq<u8>, amount: u64, now: u64)
    requires
        bank_inv(v),
        spec_make_deposit(v, from, to, amount, true, now).1 is Ok,
    ensures
        ({
            let w = spec_make_deposit(v, from, to, amount, true, now).0;
            let t = doc_id_of_bytes(to);
            &&& account_map(w).dom() == account_map(v).dom()
            &&& account_map(w)[t].balance == account_map(v)[t].balance + amount
            &&& forall|id: DocId|
                account_map(v).dom().contains(id) && id != t ==> account_map(w)[id] == account_map(
                    v,
                )[id]
        }),
{
    let w = spec_make_deposit(v, from, to, amount, true, now).0;
    let t = doc_id_of_bytes(to);
    let v2 = credit_view(v, t, amount, now);
    lemma_account_map_contains(v.accounts, t);
    let ti = choose|i: int| 0 <= i < v.accounts.len() && v.accounts[i].id == t;
    lemma_account_index(v.accounts, ti);
    lemma_account_map_index(v.accounts, ti);
    lemma_balance_write_map(v, ti, v2.accounts[ti]);
    assert(account_map(w) == account_map(v).insert(t, v2.accounts[ti]));
    assert(account_map(w).dom() =~= account_map(v).dom());
}

/// Ledger completeness for one account: its balance is the sum of its
/// ledger credits minus the sum of its ledger debits.
pub proof fn lemma_ledger_completeness(v: BankView, id: DocId)
    requires
        bank_inv(v),
        bank_balanced(v),
        account_map(v).dom().contains(id),
    ensures
        account_map(v)[id].balance as int == credits(v.log, id) - debits(v.log, id),
{
    lemma_account_map_contains(v.accounts, id);
    let i = choose|i: int| 0 <= i < v.accounts.len() && (#[trigger] v.accounts[i]).id == id;
    lemma_account_map_index(v.accounts, i);
}

/// Strict "later" on ledger entries: later commit instant, with ties
/// broken by later transaction id.
pub open spec fn lex_after(a: Transaction, b: Transaction) -> bool {
    a.timestamp > b.timestamp || (a.timestamp == b.timestamp && a.id > b.id)
}

proof fn lemma_history_sorted_aux(log: Seq<Transaction>, id: DocId)
    requires
        forall|i: int| 0 <= i < log.len() ==> (#[trigger] log[i]).id == i + 1,
        log_timestamps_ordered(log),
    ensures
        ({
            let h = history_of(log, id);
            &&& forall|i: int, j: int| 0 <= i < j < h.len() ==> lex_after(h[i], h[j])
            &&& forall|i: int| 0 <= i < h.len() ==> 1 <= (#[trigger] h[i]).id <= log.len()
            &&& forall|i: int|
                0 <= i < h.len() ==> log.len() > 0 && (#[trigger] h[i]).timestamp <= log[log.len()
                    - 1].timestamp
        }),
    decreases log.len(),
{
    if log.len() > 0 {
        let d = log.drop_last();
        assert(forall|i: int| 0 <= i < d.len() ==> (#[trigger] d[i]) == log[i]);
        lemma_history_sorted_aux(d, id);
        let h = history_of(log, id);
        let hd = history_of(d, id);
        let last = log.last();
        assert(last == log[log.len() - 1]);
        if crate::bank::involves(last, id) {
            assert(h == seq![last] + hd);
            assert(h[0] == last);
            assert(forall|i: int| 1 <= i < h.len() ==> (#[trigger] h[i]) == hd[i - 1]);
            assert(forall|i: int| 0 <= i < hd.len() ==> (#[trigger] hd[i]).timestamp <= last.timestamp) by {
                if d.len() > 0 {
                    assert(d[d.len() - 1] == log[log.len() - 2]);
                }
            }
            assert(forall|i: int, j: int| 0 <= i < j < h.len() ==> lex_after(h[i], h[j])) by {
                assert(forall|j: int| 1 <= j < h.len() ==> lex_after(h[0], #[trigger] h[j]));
            }
        } else {
            assert(h == hd);
            if d.len() > 0 {
                assert(d[d.len() - 1] == log[log.len() - 2]);
            }
        }
    }
}

/// History ordering: what the history read model answers is strictly
/// decreasing in (commit instant, transaction id) — newest first, with a
/// total, deterministic order.
pub proof fn lemma_history_ordering(v: BankView, id: DocId)
    requires
        bank_inv(v),
    ensures
        ({
            let h = history_of(v.log, id);
            forall|i: int, j: int| 0 <= i < j < h.len() ==> lex_after(h[i], h[j])
        }),
{
    lemma_history_sorted_aux(v.log, id);
}

/// Idempotence of reads: the read endpoints take the store immutably and
/// their contracts pin each answer as a function of the state alone, so
/// two reads of one state observe the same thing. The lemma records that
/// agreement; it is immediate because the model's reads are spec
/// functions.
pub proof fn lemma_reads_idempotent(v: BankView, id: DocId)
    ensures
        history_of(v.log, id) == history_of(v.log, id),
        account_map(v).dom().contains(id) ==> account_map(v)[id] == account_map(v)[id],
{
}

} // verus!

