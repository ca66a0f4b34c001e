//! The gateway's money-movement and history endpoints: each one runs the
//! authorization gate first, and an unauthenticated request is answered
//! before the store is touched in any way.

use vstd::prelude::*;
use vstd::string::StringSliceAdditionalSpecFns;

use crate::auth::{authorize, opt_bytes, spec_extract_token};
use crate::bank::{
    Bank, bank_balanced, bank_inv, history_of, spec_make_deposit, spec_make_withdrawal,
};
use crate::errors::ErrorCode;
use crate::model::Transaction;
use crate::oid::{doc_id_of_bytes, valid_doc_id_bytes};

verus! {

/// The deposit endpoint: gate, then the transfer engine. Without a token
/// the request is rejected as unauthenticated and the store is left
/// exactly as it was; only an authenticated request reaches the engine.
pub fn handle_deposit(
    bank: &mut Bank,
    cookie: Option<&str>,
    header: Option<&str>,
    secret: &[u8],
    from_account_id: &str,
    to_account_id: &str,
    amount: u64,
    is_bank_agent: bool,
    now: u64,
) -> (r: Result<(), ErrorCode>)
    requires
        bank_inv(old(bank)@),
    ensures
        bank_inv(final(bank)@),
        bank_balanced(old(bank)@) ==> bank_balanced(final(bank)@),
        spec_extract_token(opt_bytes(cookie), opt_bytes(header)) is None ==> r == Err::<
            (),
            ErrorCode,
        >(ErrorCode::Unauthenticated) && final(bank)@ == old(bank)@,
        r == Err::<(), ErrorCode>(ErrorCode::Unauthenticated) ==> final(bank)@ == old(bank)@,
        r != Err::<(), ErrorCode>(ErrorCode::Unauthenticated) ==> {
            let outcome = spec_make_deposit(
                old(bank)@,
                from_account_id.spec_bytes(),
                to_account_id.spec_bytes(),
                amount,
                is_bank_agent,
                now,
            );
            final(bank)@ == outcome.0 && r == outcome.1
        },
{
    match authorize(cookie, header, secret) {
        Ok(_sub) => bank.make_deposit(from_account_id, to_account_id, amount, is_bank_agent, now),
        Err(e) => Err(e),
    }
}

/// The withdrawal endpoint: gate, then the withdrawal engine, answering
/// the recorded transaction id. Without a token the request is rejected
/// as unauthenticated and the store is left exactly as it was.
pub fn handle_withdrawal(
    bank: &mut Bank,
    cookie: Option<&str>,
    header: Option<&str>,
    secret: &[u8],
    account_id: &str,
    amount: u64,
    now: u64,
) -> (r: Result<u64, ErrorCode>)
    requires
        bank_inv(old(bank)@),
    ensures
        bank_inv(final(bank)@),
        bank_balanced(old(bank)@) ==> bank_balanced(final(bank)@),
        spec_extract_token(opt_bytes(cookie), opt_bytes(header)) is None ==> r == Err::<
            u64,
            ErrorCode,
        >(ErrorCode::Unauthenticated) && final(bank)@ == old(bank)@,
        r == Err::<u64, ErrorCode>(ErrorCode::Unauthenticated) ==> final(bank)@ == old(bank)@,
        r != Err::<u64, ErrorCode>(ErrorCode::Unauthenticated) ==> {
            let outcome = spec_make_withdrawal(old(bank)@, account_id.spec_bytes(), amount, now);
            final(bank)@ == outcome.0 && r == outcome.1
        },
{
    match authorize(cookie, header, secret) {
        Ok(_sub) => bank.make_withdrawal(account_id, amount, now),
        Err(e) => Err(e),
    }
}

/// The history endpoint: gate, then the read model. A read touches
/// nothing either way; without a token it is rejected as
/// unauthenticated without even being looked at.
pub fn handle_history(
    bank: &Bank,
    cookie: Option<&str>,
    header: Option<&str>,
    secret: &[u8],
    account_id: &str,
) -> (r: Result<Vec<Transaction>, ErrorCode>)
    ensures
        spec_extract_token(opt_bytes(cookie), opt_bytes(header)) is None ==> r == Err::<
            Vec<Transaction>,
            ErrorCode,
        >(ErrorCode::Unauthenticated),
        r != Err::<Vec<Transaction>, ErrorCode>(ErrorCode::Unauthenticated) ==> {
            &&& !valid_doc_id_bytes(account_id.spec_bytes()) ==> r == Err::<
                Vec<Transaction>,
                ErrorCode,
            >(ErrorCode::InvalidArgument)
            &&& valid_doc_id_bytes(account_id.spec_bytes()) ==> (r matches Ok(h) && h@
                == history_of(bank@.log, doc_id_of_bytes(account_id.spec_bytes())))
        },
{
    match authorize(cookie, header, secret) {
        Ok(_sub) => bank.get_transaction_history(account_id),
        Err(e) => Err(e),
    }
}

} // verus!
