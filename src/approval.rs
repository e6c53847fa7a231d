//! The approval registry: an owner lets other accounts transfer a token on
//! their behalf, each grant identified by a never-reused id.
use vstd::prelude::*;

use crate::internal::{copy_entries, find_entry, lemma_key_at};
use crate::metadata::{
    entry_views, has_key, key_index, keys_distinct, value_of, AccountId, Token, TokenId, TokenView,
};
use crate::storage::{
    approval_bytes, approvals_bytes, bill, bill_outcome, bytes_for_approved_account_id, credit,
    credit_amount, credit_approvals, CallContext, Payment,
};
use crate::{Contract, NftError};

verus! {

/// A message for the newly approved account, to be delivered to its own
/// handler once the grant is recorded.
pub struct ApprovalNotice {
    /// The approved account, whose handler receives the message.
    pub account_id: AccountId,
    pub token_id: TokenId,
    pub owner_id: AccountId,
    pub approval_id: u64,
    pub msg: String,
}

/// What a grant hands back to the host.
pub struct ApproveOutcome {
    /// The grant id that the approved account holds.
    pub approval_id: u64,
    /// The part of the deposit that the new storage did not use.
    pub refund: Option<Payment>,
    /// The message for the approved account, when the caller gave one.
    pub notice: Option<ApprovalNotice>,
}

/// Bytes that approving `account` adds to the token: none when the account
/// is approved already.
pub open spec fn grant_bytes(t: TokenView, account: Seq<char>) -> nat {
    if has_key(t.approvals, account) {
        0
    } else {
        approval_bytes(account)
    }
}

/// The error a grant meets, if any, in the order the checks are made.
pub open spec fn approve_error(
    c: &Contract,
    ctx: &CallContext,
    token_id: Seq<char>,
    account: Seq<char>,
) -> Option<NftError> {
    let t = c.tokens()[token_id];
    if ctx.attached_deposit < 1 {
        Some(NftError::InsufficientPayment)
    } else if !c.tokens().contains_key(token_id) {
        Some(NftError::NotFound)
    } else if ctx.predecessor_id@ != t.owner_id {
        Some(NftError::Unauthorized)
    } else if !has_key(t.approvals, account) && t.next_approval_id == u64::MAX {
        Some(NftError::ApprovalIdsExhausted)
    } else if bill_outcome(
        ctx.attached_deposit,
        ctx.storage_byte_cost,
        grant_bytes(t, account) as int,
    ) is Err {
        Some(NftError::InsufficientPayment)
    } else {
        None
    }
}

/// The error a revocation meets, if any: it asks for exactly one unit of
/// deposit, an existing token, and the owner as caller.
pub open spec fn revoke_error(c: &Contract, ctx: &CallContext, token_id: Seq<char>) -> Option<
    NftError,
> {
    if ctx.attached_deposit != 1 {
        Some(NftError::InsufficientPayment)
    } else if !c.tokens().contains_key(token_id) {
        Some(NftError::NotFound)
    } else if ctx.predecessor_id@ != c.tokens()[token_id].owner_id {
        Some(NftError::Unauthorized)
    } else {
        None
    }
}

/// Approving an account that is approved already changes nothing and adds
/// no storage: a second grant to the same account, with no revocation in
/// between, keeps the grant id and the counter of the first.
pub proof fn lemma_regrant_changes_nothing(t: TokenView, account: Seq<char>)
    requires
        t.wf(),
    ensures
        t.with_grant(account).with_grant(account) == t.with_grant(account),
        grant_bytes(t.with_grant(account), account) == 0,
        has_key(t.approvals, account) ==> grant_bytes(t, account) == 0,
        !has_key(t.approvals, account) ==> grant_bytes(t, account) == approval_bytes(account),
{
    let t1 = t.with_grant(account);
    if !has_key(t.approvals, account) {
        assert(t1.approvals[t.approvals.len() as int].0 == account);
    }
    assert(has_key(t1.approvals, account));
}

/// Revoking an account that holds no approval leaves the token as it is.
pub proof fn lemma_revoke_unapproved_changes_nothing(t: TokenView, account: Seq<char>)
    requires
        !t.is_approved(account, None),
    ensures
        t.without_grant(account) == t,
{
}

/// A revocation without exactly one unit of deposit is refused for lack of
/// payment, whatever the token and the account.
pub proof fn lemma_revoke_needs_payment(c: &Contract, ctx: &CallContext, token_id: Seq<char>)
    requires
        ctx.attached_deposit != 1,
    ensures
        revoke_error(c, ctx, token_id) == Some(NftError::InsufficientPayment),
{
}

/// Grant ids are never reused: once the grant `approval_id` of an account is
/// revoked and the account approved again, the old id no longer matches,
/// though the account is approved.
pub proof fn lemma_revoked_grant_id_is_stale(t: TokenView, account: Seq<char>, approval_id: u64)
    requires
        t.wf(),
        t.is_approved(account, Some(approval_id)),
        t.next_approval_id < u64::MAX,
    ensures
        t.without_grant(account).with_grant(account).is_approved(account, None),
        !t.without_grant(account).with_grant(account).is_approved(account, Some(approval_id)),
{
    let i = key_index(t.approvals, account);
    let t1 = t.without_grant(account);
    let t2 = t1.with_grant(account);
    assert(t.approvals[i].1 == approval_id);
    assert(approval_id < t.next_approval_id);
    assert(!has_key(t1.approvals, account)) by {
        if has_key(t1.approvals, account) {
            let j = choose|j: int| 0 <= j < t1.approvals.len() && t1.approvals[j].0 == account;
            if j < i {
                assert(t.approvals[j].0 == account);
            } else {
                assert(t.approvals[j + 1].0 == account);
            }
        }
    }
    let n = t1.approvals.len() as int;
    assert(keys_distinct(t2.approvals)) by {
        assert forall|a: int, b: int| 0 <= a < b < t2.approvals.len() implies t2.approvals[a].0
            != t2.approvals[b].0 by {
            let ia = if a < i { a } else { a + 1 };
            if b == n {
                assert(t1.approvals[a].0 != account);
            } else {
                let ib = if b < i { b } else { b + 1 };
                assert(t.approvals[ia].0 != t.approvals[ib].0);
            }
        }
    }
    crate::internal::lemma_key_at(t2.approvals, n);
}

/// Revoking every approval twice in a row does no more than once: the
/// second call finds no approval, so it changes nothing and refunds nothing.
pub proof fn lemma_revoke_all_is_idempotent(t: TokenView)
    ensures
        t.without_grants().without_grants() == t.without_grants(),
        t.without_grants().approvals.len() == 0,
{
}

/// Approval management of a token.
pub trait NonFungibleTokenCore {
    /// The invariant the calls below rely on.
    spec fn ledger_wf(&self) -> bool;

    /// Approves `account_id` to transfer `token_id` on the owner's behalf.
    fn nft_approve(
        &mut self,
        ctx: &CallContext,
        token_id: TokenId,
        account_id: AccountId,
        msg: Option<String>,
    ) -> Result<ApproveOutcome, NftError>
        requires
            old(self).ledger_wf(),
    ;

    /// Whether `approved_account_id` may transfer `token_id`, under grant id
    /// `approval_id` when one is given.
    fn nft_is_approved(
        &self,
        token_id: TokenId,
        approved_account_id: AccountId,
        approval_id: Option<u64>,
    ) -> Result<bool, NftError>
        requires
            self.ledger_wf(),
    ;

    /// Revokes the approval of `account_id` on `token_id`.
    fn nft_revoke(&mut self, ctx: &CallContext, token_id: TokenId, account_id: AccountId) -> Result<
        Option<Payment>,
        NftError,
    >
        requires
            old(self).ledger_wf(),
    ;

    /// Revokes every approval on `token_id`.
    fn nft_revoke_all(&mut self, ctx: &CallContext, token_id: TokenId) -> Result<
        Option<Payment>,
        NftError,
    >
        requires
            old(self).ledger_wf(),
    ;
}

impl NonFungibleTokenCore for Contract {
    open spec fn ledger_wf(&self) -> bool {
        self.wf()
    }

    fn nft_approve(
        &mut self,
        ctx: &CallContext,
        token_id: TokenId,
        account_id: AccountId,
        msg: Option<String>,
    ) -> (r: Result<ApproveOutcome, NftError>)
        ensures
            final(self).wf(),
            match approve_error(old(self), ctx, token_id@, account_id@) {
                Some(e) => r == Err::<ApproveOutcome, NftError>(e) && *final(self) == *old(self),
                None => {
                    let t = old(self).tokens()[token_id@];
                    let t2 = t.with_grant(account_id@);
                    &&& final(self).tokens() == old(self).tokens().insert(token_id@, t2)
                    &&& final(self).keeps_catalog_of(old(self))
                    &&& r is Ok
                    &&& value_of(t2.approvals, account_id@) == Some(r.unwrap().approval_id)
                    &&& match r.unwrap().refund {
                        Some(p) => {
                            &&& p.receiver_id@ == ctx.predecessor_id@
                            &&& p.amount == ctx.attached_deposit - grant_bytes(t, account_id@)
                                * ctx.storage_byte_cost
                            &&& p.amount > 0
                        },
                        None => ctx.attached_deposit == grant_bytes(t, account_id@)
                            * ctx.storage_byte_cost,
                    }
                    &&& match msg {
                        Some(m) => r.unwrap().notice == Some(
                            ApprovalNotice {
                                account_id,
                                token_id,
                                owner_id: ctx.predecessor_id,
                                approval_id: r.unwrap().approval_id,
                                msg: m,
                            },
                        ),
                        None => r.unwrap().notice is None,
                    }
                },
            },
    {
        if ctx.attached_deposit < 1 {
            return Err(NftError::InsufficientPayment);
        }
        let token = match self.tokens_by_id.get(token_id.as_str()) {
            Some(t) => t,
            None => {
                return Err(NftError::NotFound);
            },
        };
        if ctx.predecessor_id != token.owner_id {
            return Err(NftError::Unauthorized);
        }
        let ghost t = token@;
        let existing = find_entry(&token.approved_account_ids, &account_id);
        let approval_id: u64;
        let storage_used: u128;
        match existing {
            Some(i) => {
                proof {
                    lemma_key_at(t.approvals, i as int);
                }
                approval_id = token.approved_account_ids[i].1;
                storage_used = 0;
            },
            None => {
                if token.next_approval_id == u64::MAX {
                    return Err(NftError::ApprovalIdsExhausted);
                }
                approval_id = token.next_approval_id;
                storage_used = bytes_for_approved_account_id(&account_id);
            },
        }
        let refund = match bill(ctx, storage_used) {
            Ok(p) => p,
            Err(e) => {
                return Err(e);
            },
        };
        if existing.is_none() {
            let mut approvals = copy_entries(&token.approved_account_ids);
            approvals.push((account_id.clone(), approval_id));
            let new_token = Token {
                owner_id: token.owner_id.clone(),
                approved_account_ids: approvals,
                next_approval_id: approval_id + 1,
                royalty: copy_entries(&token.royalty),
            };
            let ghost old_self = *self;
            proof {
                assert(entry_views(approvals@) =~= t.approvals.push((account_id@, approval_id)));
                assert(new_token@ == t.with_grant(account_id@));
                let t2 = t.with_grant(account_id@);
                assert(value_of(t2.approvals, account_id@) == Some(approval_id)) by {
                    lemma_key_at(t2.approvals, t.approvals.len() as int);
                }
            }
            self.tokens_by_id.insert(token_id.clone(), new_token);
            proof {
                assert(self.tokens() =~= old_self.tokens().insert(token_id@, new_token@));
                Contract::lemma_record_replaced(&old_self, self, token_id@, new_token@);
            }
        } else {
            proof {
                assert(self.tokens().insert(token_id@, t) =~= self.tokens());
            }
        }
        let notice = match msg {
            Some(m) => Some(
                ApprovalNotice {
                    account_id,
                    token_id,
                    owner_id: ctx.predecessor_id.clone(),
                    approval_id,
                    msg: m,
                },
            ),
            None => None,
        };
        Ok(ApproveOutcome { approval_id, refund, notice })
    }

    fn nft_is_approved(
        &self,
        token_id: TokenId,
        approved_account_id: AccountId,
        approval_id: Option<u64>,
    ) -> (r: Result<bool, NftError>)
        ensures
            match self.tokens().get(token_id@) {
                Some(t) => r == Ok::<bool, NftError>(t.is_approved(approved_account_id@, approval_id)),
                None => r == Err::<bool, NftError>(NftError::NotFound),
            },
    {
        let token = match self.tokens_by_id.get(token_id.as_str()) {
            Some(t) => t,
            None => {
                return Err(NftError::NotFound);
            },
        };
        match find_entry(&token.approved_account_ids, &approved_account_id) {
            Some(i) => {
                proof {
                    lemma_key_at(token@.approvals, i as int);
                }
                match approval_id {
                    Some(id) => Ok(token.approved_account_ids[i].1 == id),
                    None => Ok(true),
                }
            },
            None => Ok(false),
        }
    }

    fn nft_revoke(&mut self, ctx: &CallContext, token_id: TokenId, account_id: AccountId) -> (r:
        Result<Option<Payment>, NftError>)
        ensures
            final(self).wf(),
            match revoke_error(old(self), ctx, token_id@) {
                Some(e) => r == Err::<Option<Payment>, NftError>(e) && *final(self) == *old(self),
                None => {
                    let t = old(self).tokens()[token_id@];
                    &&& final(self).tokens() == old(self).tokens().insert(
                        token_id@,
                        t.without_grant(account_id@),
                    )
                    &&& final(self).keeps_catalog_of(old(self))
                    &&& r is Ok
                    &&& if has_key(t.approvals, account_id@) {
                        &&& r.unwrap() is Some
                        &&& r.unwrap().unwrap().receiver_id@ == ctx.predecessor_id@
                        &&& r.unwrap().unwrap().amount == credit_amount(
                            approval_bytes(account_id@) as int,
                            ctx.storage_byte_cost,
                        )
                    } else {
                        r.unwrap() is None && *final(self) == *old(self)
                    }
                },
            },
    {
        if ctx.attached_deposit != 1 {
            return Err(NftError::InsufficientPayment);
        }
        let token = match self.tokens_by_id.get(token_id.as_str()) {
            Some(t) => t,
            None => {
                return Err(NftError::NotFound);
            },
        };
        if ctx.predecessor_id != token.owner_id {
            return Err(NftError::Unauthorized);
        }
        let ghost t = token@;
        match find_entry(&token.approved_account_ids, &account_id) {
            Some(i) => {
                proof {
                    lemma_key_at(t.approvals, i as int);
                }
                let mut approvals = copy_entries(&token.approved_account_ids);
                approvals.remove(i);
                let new_token = Token {
                    owner_id: token.owner_id.clone(),
                    approved_account_ids: approvals,
                    next_approval_id: token.next_approval_id,
                    royalty: copy_entries(&token.royalty),
                };
                let ghost old_self = *self;
                proof {
                    assert(entry_views(approvals@) =~= t.approvals.remove(i as int));
                    assert(new_token@ == t.without_grant(account_id@));
                }
                self.tokens_by_id.insert(token_id, new_token);
                proof {
                    assert(self.tokens() =~= old_self.tokens().insert(token_id@, new_token@));
                    Contract::lemma_record_replaced(&old_self, self, token_id@, new_token@);
                }
                let bytes = bytes_for_approved_account_id(&account_id);
                Ok(Some(credit(ctx.predecessor_id.clone(), bytes, ctx.storage_byte_cost)))
            },
            None => {
                proof {
                    assert(self.tokens().insert(token_id@, t) =~= self.tokens());
                }
                Ok(None)
            },
        }
    }

    fn nft_revoke_all(&mut self, ctx: &CallContext, token_id: TokenId) -> (r: Result<
        Option<Payment>,
        NftError,
    >)
        ensures
            final(self).wf(),
            match revoke_error(old(self), ctx, token_id@) {
                Some(e) => r == Err::<Option<Payment>, NftError>(e) && *final(self) == *old(self),
                None => {
                    let t = old(self).tokens()[token_id@];
                    &&& final(self).tokens() == old(self).tokens().insert(
                        token_id@,
                        t.without_grants(),
                    )
                    &&& final(self).keeps_catalog_of(old(self))
                    &&& r is Ok
                    &&& if t.approvals.len() > 0 {
                        &&& r.unwrap() is Some
                        &&& r.unwrap().unwrap().receiver_id@ == ctx.predecessor_id@
                        &&& r.unwrap().unwrap().amount == credit_amount(
                            approvals_bytes(t.approvals) as int,
                            ctx.storage_byte_cost,
                        )
                    } else {
                        r.unwrap() is None && *final(self) == *old(self)
                    }
                },
            },
    {
        if ctx.attached_deposit != 1 {
            return Err(NftError::InsufficientPayment);
        }
        let token = match self.tokens_by_id.get(token_id.as_str()) {
            Some(t) => t,
            None => {
                return Err(NftError::NotFound);
            },
        };
        if ctx.predecessor_id != token.owner_id {
            return Err(NftError::Unauthorized);
        }
        let ghost t = token@;
        if token.approved_account_ids.len() == 0 {
            proof {
                assert(t.approvals =~= Seq::<(Seq<char>, u64)>::empty());
                assert(t.without_grants() == t);
                assert(self.tokens().insert(token_id@, t) =~= self.tokens());
            }
            return Ok(None);
        }
        let refund = credit_approvals(
            ctx.predecessor_id.clone(),
            &token.approved_account_ids,
            ctx.storage_byte_cost,
        );
        let new_token = Token {
            owner_id: token.owner_id.clone(),
            approved_account_ids: Vec::new(),
            next_approval_id: token.next_approval_id,
            royalty: copy_entries(&token.royalty),
        };
        let ghost old_self = *self;
        proof {
            assert(entry_views(new_token.approved_account_ids@) =~= Seq::<(Seq<char>, u64)>::empty());
            assert(new_token@ == t.without_grants());
        }
        self.tokens_by_id.insert(token_id, new_token);
        proof {
            assert(self.tokens() =~= old_self.tokens().insert(token_id@, new_token@));
            Contract::lemma_record_replaced(&old_self, self, token_id@, new_token@);
        }
        Ok(Some(refund))
    }
}

} // verus!
