//! The storage meter: what a call must prepay for the bytes it makes the
//! ledger keep, and what it gets back for the bytes it releases.
use vstd::prelude::*;
use vstd::utf8::encode_utf8;

use crate::metadata::{entry_views, AccountId};
use crate::NftError;

verus! {

/// What the host tells the ledger about the call being served.
pub struct CallContext {
    /// The account that made the call.
    pub predecessor_id: AccountId,
    /// The funds attached to the call.
    pub attached_deposit: u128,
    /// The price of one byte of storage.
    pub storage_byte_cost: u128,
}

/// Funds that the host must send to an account.
pub struct Payment {
    pub receiver_id: AccountId,
    pub amount: u128,
}

/// The largest value a `u128` holds, as a mathematical integer.
pub open spec fn u128_max() -> int {
    0xffff_ffff_ffff_ffff_ffff_ffff_ffff_ffff
}

/// `x` when it fits in a `u128`, else the largest `u128`.
pub open spec fn saturate(x: int) -> u128 {
    if x > u128_max() {
        u128::MAX
    } else {
        x as u128
    }
}

/// Length in bytes of the UTF-8 encoding of `s`, as `str::len` reports it.
pub open spec fn utf8_len(s: Seq<char>) -> nat {
    (encode_utf8(s).len() as usize) as nat
}

/// Bytes that one approval entry keeps: the account id with its 4-byte
/// length prefix, and the 8-byte grant id.
pub open spec fn approval_bytes(account: Seq<char>) -> nat {
    utf8_len(account) + 12
}

/// Bytes kept by a list of approval entries.
pub open spec fn approvals_bytes(s: Seq<(Seq<char>, u64)>) -> nat
    decreases s.len(),
{
    if s.len() == 0 {
        0
    } else {
        approvals_bytes(s.drop_last()) + approval_bytes(s.last().0)
    }
}

/// The refund for releasing `bytes` bytes at `price` per byte (saturating).
pub open spec fn credit_amount(bytes: int, price: u128) -> u128 {
    saturate(bytes * price)
}

/// The surplus returned by billing `bytes` bytes against `deposit`, or the
/// error when the deposit does not cover them.
pub open spec fn bill_outcome(deposit: u128, price: u128, bytes: int) -> Result<u128, NftError> {
    if bytes * price > deposit {
        Err(NftError::InsufficientPayment)
    } else {
        Ok((deposit - bytes * price) as u128)
    }
}

proof fn lemma_saturate_product(b: int, p: int)
    requires
        b >= 0,
        0 <= p <= u128_max(),
    ensures
        saturate(saturate(b) * p) == saturate(b * p),
{
    if b > u128_max() && p > 0 {
        assert(b * p >= b) by (nonlinear_arith)
            requires
                b >= 0,
                p >= 1,
        ;
        assert(u128_max() * p >= u128_max()) by (nonlinear_arith)
            requires
                p >= 1,
        ;
    }
}

/// Bytes kept by one approval of `account_id`.
pub fn bytes_for_approved_account_id(account_id: &AccountId) -> (r: u128)
    ensures
        r == approval_bytes(account_id@),
{
    account_id.as_str().len() as u128 + 12
}

/// Bytes kept by all the given approvals (saturating).
pub fn bytes_for_approvals(approvals: &Vec<(AccountId, u64)>) -> (r: u128)
    ensures
        r == saturate(approvals_bytes(entry_views(approvals@)) as int),
{
    let mut total: u128 = 0;
    let mut i: usize = 0;
    while i < approvals.len()
        invariant
            i <= approvals.len(),
            total == saturate(approvals_bytes(entry_views(approvals@.subrange(0, i as int))) as int),
        decreases approvals.len() - i,
    {
        let b = bytes_for_approved_account_id(&approvals[i].0);
        proof {
            let pre = approvals@.subrange(0, i as int);
            let next = approvals@.subrange(0, i + 1);
            assert(entry_views(next).drop_last() =~= entry_views(pre));
        }
        total = total.saturating_add(b);
        i = i + 1;
    }
    proof {
        assert(approvals@.subrange(0, approvals.len() as int) =~= approvals@);
    }
    total
}

/// The refund to `receiver_id` for releasing `bytes` bytes.
pub fn credit(receiver_id: AccountId, bytes: u128, price: u128) -> (r: Payment)
    ensures
        r.receiver_id == receiver_id,
        r.amount == credit_amount(bytes as int, price),
{
    let amount = match bytes.checked_mul(price) {
        Some(a) => a,
        None => u128::MAX,
    };
    Payment { receiver_id, amount }
}

/// The refund for releasing every approval in `approvals`.
pub fn credit_approvals(receiver_id: AccountId, approvals: &Vec<(AccountId, u64)>, price: u128) -> (r:
    Payment)
    ensures
        r.receiver_id == receiver_id,
        r.amount == credit_amount(approvals_bytes(entry_views(approvals@)) as int, price),
{
    let bytes = bytes_for_approvals(approvals);
    proof {
        lemma_saturate_product(approvals_bytes(entry_views(approvals@)) as int, price as int);
    }
    credit(receiver_id, bytes, price)
}

/// Bills `bytes` newly kept bytes to the caller: fails when the attached
/// deposit does not cover them, else hands back the surplus, if any.
pub fn bill(ctx: &CallContext, bytes: u128) -> (r: Result<Option<Payment>, NftError>)
    ensures
        match bill_outcome(ctx.attached_deposit, ctx.storage_byte_cost, bytes as int) {
            Err(e) => r == Err::<Option<Payment>, NftError>(e),
            Ok(surplus) => r is Ok && match r.unwrap() {
                Some(p) => surplus > 0 && p.receiver_id == ctx.predecessor_id && p.amount == surplus,
                None => surplus == 0,
            },
        },
{
    match bytes.checked_mul(ctx.storage_byte_cost) {
        None => Err(NftError::InsufficientPayment),
        Some(cost) => {
            if cost > ctx.attached_deposit {
                Err(NftError::InsufficientPayment)
            } else {
                let surplus = ctx.attached_deposit - cost;
                if surplus > 0 {
                    Ok(Some(Payment { receiver_id: ctx.predecessor_id.clone(), amount: surplus }))
                } else {
                    Ok(None)
                }
            }
        }
    }
}

} // verus!
