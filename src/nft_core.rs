//! Moving tokens: the ownership transfer primitive, direct transfers,
//! transfers that notify the receiver, and the resolution that follows the
//! receiver's answer.
use vstd::prelude::*;

use crate::events::{is_transfer_event, opt_view, transfer_event, EventLog};
use crate::internal::{copy_entries, find_entry, lemma_key_at};
use crate::metadata::{
    entry_views, has_key, keys_distinct, value_of, AccountId, JsonToken, Token, TokenId, TokenView,
};
use crate::storage::{approvals_bytes, credit_amount, credit_approvals, CallContext, Payment};
use crate::{Contract, NftError};

verus! {

/// The message delivered to the receiver's own handler after a transfer
/// that asks for its answer.
pub struct TransferNotice {
    /// The receiver, whose handler gets the message.
    pub receiver_id: AccountId,
    pub sender_id: AccountId,
    pub previous_owner_id: AccountId,
    pub token_id: TokenId,
    pub msg: String,
}

/// What the resolution of a transfer needs to know once the receiver has
/// answered.
pub struct PendingResolution {
    /// The approved account that made the transfer, when not the owner.
    pub authorized_id: Option<AccountId>,
    /// The owner before the transfer.
    pub owner_id: AccountId,
    pub receiver_id: AccountId,
    pub token_id: TokenId,
    /// The approvals the token held before the transfer.
    pub approved_account_ids: Vec<(AccountId, u64)>,
    pub memo: Option<String>,
}

/// What a direct transfer hands back to the host.
pub struct TransferOutcome {
    /// The refund to the previous owner for the approvals that were cleared.
    pub refund: Payment,
    pub log: EventLog,
}

/// What a transfer that asks for the receiver's answer hands back.
pub struct TransferCallOutcome {
    pub log: EventLog,
    pub notice: TransferNotice,
    pub resolution: PendingResolution,
}

/// How the receiver's handler answered.
pub enum PromiseResult {
    /// It returned this payload.
    Successful(Vec<u8>),
    /// The call failed or gave no answer.
    Failed,
}

/// What the resolution of a transfer hands back.
pub struct ResolveOutcome {
    /// Whether the transfer was undone.
    pub reverted: bool,
    /// The refund for approvals released: to the previous owner when the
    /// transfer stands, to the receiver when it is undone.
    pub refund: Payment,
    /// The record of the token's move back, when the transfer is undone.
    pub log: Option<EventLog>,
}

/// The JSON boolean a payload holds, if it holds one.
pub uninterp spec fn json_bool(payload: Seq<u8>) -> Option<bool>;

/// Relies on `serde_json::from_slice::<bool>`: the boolean a JSON payload
/// holds, or an error when the payload is not one JSON boolean.
#[verifier::external_body]
fn decode_bool(payload: &Vec<u8>) -> (r: Option<bool>)
    ensures
        r == json_bool(payload@),
{
    serde_json::from_slice::<bool>(payload.as_slice()).ok()
}

/// The receiver's answer: `Some(true)` asks to undo the transfer,
/// `Some(false)` to keep it; `None` when the call failed or its payload is
/// not a boolean.
pub open spec fn notification_answer(p: PromiseResult) -> Option<bool> {
    match p {
        PromiseResult::Successful(payload) => json_bool(payload@),
        PromiseResult::Failed => None,
    }
}

/// The account recorded as having authorized a transfer: none when the
/// owner made it.
pub open spec fn authorized_by(sender: Seq<char>, owner: Seq<char>) -> Option<Seq<char>> {
    if sender == owner {
        None
    } else {
        Some(sender)
    }
}

/// The error the ownership transfer meets, if any, in the order the checks
/// are made.
pub open spec fn transfer_error(
    c: &Contract,
    sender: Seq<char>,
    receiver: Seq<char>,
    token_id: Seq<char>,
    approval_id: Option<u64>,
) -> Option<NftError> {
    let t = c.tokens()[token_id];
    if !c.tokens().contains_key(token_id) {
        Some(NftError::NotFound)
    } else if sender != t.owner_id && !has_key(t.approvals, sender) {
        Some(NftError::Unauthorized)
    } else if sender != t.owner_id && approval_id is Some && value_of(t.approvals, sender)
        != approval_id {
        Some(NftError::StaleGrant)
    } else if receiver == t.owner_id {
        Some(NftError::SelfTransfer)
    } else {
        None
    }
}

/// The error a transfer call meets: it asks for exactly one unit of
/// deposit, then for what the ownership transfer asks.
pub open spec fn paid_transfer_error(
    c: &Contract,
    ctx: &CallContext,
    receiver: Seq<char>,
    token_id: Seq<char>,
    approval_id: Option<u64>,
) -> Option<NftError> {
    if ctx.attached_deposit != 1 {
        Some(NftError::InsufficientPayment)
    } else {
        transfer_error(c, ctx.predecessor_id@, receiver, token_id, approval_id)
    }
}

/// A paid transfer by an account that neither owns the token nor holds an
/// approval for it is refused as unauthorized; a refused transfer changes
/// nothing (see `nft_transfer` and `nft_transfer_call`).
pub proof fn lemma_stranger_cannot_transfer(
    c: &Contract,
    ctx: &CallContext,
    receiver: Seq<char>,
    token_id: Seq<char>,
    approval_id: Option<u64>,
)
    requires
        ctx.attached_deposit == 1,
        c.tokens().contains_key(token_id),
        ctx.predecessor_id@ != c.tokens()[token_id].owner_id,
        !c.tokens()[token_id].is_approved(ctx.predecessor_id@, None),
    ensures
        paid_transfer_error(c, ctx, receiver, token_id, approval_id) == Some(NftError::Unauthorized),
{
}

/// A paid transfer by an approved account that names a grant id other than
/// the one it holds is refused as stale; a refused transfer changes nothing.
pub proof fn lemma_stale_grant_cannot_transfer(
    c: &Contract,
    ctx: &CallContext,
    receiver: Seq<char>,
    token_id: Seq<char>,
    approval_id: u64,
)
    requires
        ctx.attached_deposit == 1,
        c.tokens().contains_key(token_id),
        ctx.predecessor_id@ != c.tokens()[token_id].owner_id,
        c.tokens()[token_id].is_approved(ctx.predecessor_id@, None),
        !c.tokens()[token_id].is_approved(ctx.predecessor_id@, Some(approval_id)),
    ensures
        paid_transfer_error(c, ctx, receiver, token_id, Some(approval_id)) == Some(
            NftError::StaleGrant,
        ),
{
}

/// A snapshot of approvals that can be restored: each account once, and
/// every grant id below the largest `u64`.
pub open spec fn snapshot_wf(s: Seq<(Seq<char>, u64)>) -> bool {
    &&& keys_distinct(s)
    &&& forall|i: int| 0 <= i < s.len() ==> #[trigger] s[i].1 < u64::MAX
}

/// One more than the largest grant id in `s`, or zero when `s` is empty.
pub open spec fn ids_bound(s: Seq<(Seq<char>, u64)>) -> nat
    decreases s.len(),
{
    if s.len() == 0 {
        0
    } else {
        let b = ids_bound(s.drop_last());
        let x = s.last().1 + 1;
        if x > b {
            x as nat
        } else {
            b
        }
    }
}

/// The grant counter once `s` is restored: never lower than it was, and
/// above every restored id.
pub open spec fn restored_counter(next: u64, s: Seq<(Seq<char>, u64)>) -> u64 {
    if ids_bound(s) > next {
        ids_bound(s) as u64
    } else {
        next
    }
}

/// The transfer stands: the receiver asked to keep the token, or the token
/// is gone, or someone else owns it by now.
pub open spec fn keeps_transfer(
    c: &Contract,
    receiver: Seq<char>,
    token_id: Seq<char>,
    answer: Option<bool>,
) -> bool {
    ||| answer == Some(false)
    ||| !c.tokens().contains_key(token_id)
    ||| c.tokens()[token_id].owner_id != receiver
}

/// The token given back to `owner` with the approvals of `snapshot`.
pub open spec fn reverted_token(
    cur: TokenView,
    owner: Seq<char>,
    snapshot: Seq<(Seq<char>, u64)>,
) -> TokenView {
    TokenView {
        owner_id: owner,
        approvals: snapshot,
        next_approval_id: restored_counter(cur.next_approval_id, snapshot),
        royalty: cur.royalty,
    }
}

/// What resolving a transfer of `token_id` from `owner_id` to
/// `receiver_id` does, given the receiver's `answer`.
pub open spec fn resolution(
    before: &Contract,
    after: &Contract,
    r: ResolveOutcome,
    price: u128,
    authorized_id: Option<Seq<char>>,
    owner_id: Seq<char>,
    receiver_id: Seq<char>,
    token_id: Seq<char>,
    snapshot: Seq<(Seq<char>, u64)>,
    memo: Option<Seq<char>>,
    answer: Option<bool>,
) -> bool {
    &&& after.wf()
    &&& r.reverted == !keeps_transfer(before, receiver_id, token_id, answer)
    &&& if keeps_transfer(before, receiver_id, token_id, answer) {
        &&& *after == *before
        &&& r.refund.receiver_id@ == owner_id
        &&& r.refund.amount == credit_amount(approvals_bytes(snapshot) as int, price)
        &&& r.log is None
    } else {
        let cur = before.tokens()[token_id];
        &&& after.tokens() == before.tokens().insert(token_id, reverted_token(cur, owner_id, snapshot))
        &&& after.keeps_catalog_of(before)
        &&& r.refund.receiver_id@ == receiver_id
        &&& r.refund.amount == credit_amount(approvals_bytes(cur.approvals) as int, price)
        &&& r.log is Some
        &&& is_transfer_event(r.log.unwrap(), authorized_id, receiver_id, owner_id, token_id, memo)
    }
}

proof fn lemma_ids_bound(s: Seq<(Seq<char>, u64)>)
    requires
        snapshot_wf(s),
    ensures
        ids_bound(s) <= u64::MAX,
        forall|i: int| 0 <= i < s.len() ==> #[trigger] s[i].1 < ids_bound(s),
    decreases s.len(),
{
    if s.len() > 0 {
        let p = s.drop_last();
        assert(snapshot_wf(p)) by {
            assert forall|i: int, j: int| 0 <= i < j < p.len() implies p[i].0 != p[j].0 by {
                assert(s[i].0 != s[j].0);
            }
            assert forall|i: int| 0 <= i < p.len() implies #[trigger] p[i].1 < u64::MAX by {
                assert(s[i].1 < u64::MAX);
            }
        }
        lemma_ids_bound(p);
        assert(s.last().1 < u64::MAX);
        assert forall|i: int| 0 <= i < s.len() implies #[trigger] s[i].1 < ids_bound(s) by {
            if i < s.len() - 1 {
                assert(s[i].1 == p[i].1);
            }
        }
    }
}

/// Whether `v` can be restored as a token's approvals.
pub fn is_valid_snapshot(v: &Vec<(AccountId, u64)>) -> (r: bool)
    ensures
        r == snapshot_wf(entry_views(v@)),
{
    let ghost s = entry_views(v@);
    let mut i: usize = 0;
    while i < v.len()
        invariant
            i <= v.len(),
            s == entry_views(v@),
            forall|a: int| 0 <= a < i ==> #[trigger] s[a].1 < u64::MAX,
            forall|a: int, b: int| 0 <= a < b < v.len() && a < i ==> s[a].0 != s[b].0,
        decreases v.len() - i,
    {
        if v[i].1 == u64::MAX {
            proof {
                assert(s[i as int].1 == u64::MAX);
            }
            return false;
        }
        let mut j: usize = i + 1;
        while j < v.len()
            invariant
                i < j <= v.len(),
                s == entry_views(v@),
                forall|b: int| i < b < j ==> s[i as int].0 != #[trigger] s[b].0,
            decreases v.len() - j,
        {
            if v[i].0 == v[j].0 {
                proof {
                    assert(s[i as int].0 == s[j as int].0);
                }
                return false;
            }
            j = j + 1;
        }
        i = i + 1;
    }
    true
}

/// The grant counter for a token whose approvals become `v`.
fn restored_counter_of(v: &Vec<(AccountId, u64)>, next: u64) -> (r: u64)
    requires
        snapshot_wf(entry_views(v@)),
    ensures
        r == restored_counter(next, entry_views(v@)),
{
    proof {
        lemma_ids_bound(entry_views(v@));
    }
    let mut bound: u64 = 0;
    let mut i: usize = 0;
    while i < v.len()
        invariant
            i <= v.len(),
            snapshot_wf(entry_views(v@)),
            bound == ids_bound(entry_views(v@.subrange(0, i as int))),
        decreases v.len() - i,
    {
        let ghost pre = entry_views(v@.subrange(0, i as int));
        let ghost next_pre = entry_views(v@.subrange(0, i + 1));
        proof {
            assert(next_pre.drop_last() =~= pre);
            assert(entry_views(v@)[i as int].1 < u64::MAX);
        }
        let x = v[i].1 + 1;
        if x > bound {
            bound = x;
        }
        i = i + 1;
    }
    proof {
        assert(v@.subrange(0, v.len() as int) =~= v@);
    }
    if bound > next {
        bound
    } else {
        next
    }
}

impl Contract {
    /// Moves `token_id` from its owner to `receiver_id` on behalf of
    /// `sender_id`, who must be the owner or hold an approval (with grant id
    /// `approval_id` when one is given). The token's approvals are cleared
    /// and its grant counter kept. Returns the record as it was before, and
    /// the standard's record of the move.
    pub(crate) fn internal_transfer(
        &mut self,
        sender_id: &AccountId,
        receiver_id: &AccountId,
        token_id: &TokenId,
        approval_id: Option<u64>,
        memo: Option<String>,
    ) -> (r: Result<(Token, EventLog), NftError>)
        requires
            old(self).wf(),
        ensures
            final(self).wf(),
            match transfer_error(old(self), sender_id@, receiver_id@, token_id@, approval_id) {
                Some(e) => r == Err::<(Token, EventLog), NftError>(e) && *final(self) == *old(
                    self,
                ),
                None => {
                    let t = old(self).tokens()[token_id@];
                    &&& r is Ok
                    &&& r.unwrap().0@ == t
                    &&& final(self).tokens() == old(self).tokens().insert(
                        token_id@,
                        t.handed_to(receiver_id@),
                    )
                    &&& final(self).keeps_catalog_of(old(self))
                    &&& is_transfer_event(
                        r.unwrap().1,
                        authorized_by(sender_id@, t.owner_id),
                        t.owner_id,
                        receiver_id@,
                        token_id@,
                        opt_view(memo),
                    )
                },
            },
    {
        let token = match self.tokens_by_id.get(token_id.as_str()) {
            Some(t) => t,
            None => {
                return Err(NftError::NotFound);
            },
        };
        let ghost t = token@;
        if *sender_id != token.owner_id {
            match find_entry(&token.approved_account_ids, sender_id) {
                None => {
                    return Err(NftError::Unauthorized);
                },
                Some(i) => {
                    proof {
                        lemma_key_at(t.approvals, i as int);
                    }
                    match approval_id {
                        Some(id) => {
                            if token.approved_account_ids[i].1 != id {
                                return Err(NftError::StaleGrant);
                            }
                        },
                        None => {},
                    }
                },
            }
        }
        if *receiver_id == token.owner_id {
            return Err(NftError::SelfTransfer);
        }
        let previous = Token {
            owner_id: token.owner_id.clone(),
            approved_account_ids: copy_entries(&token.approved_account_ids),
            next_approval_id: token.next_approval_id,
            royalty: copy_entries(&token.royalty),
        };
        let new_token = Token {
            owner_id: receiver_id.clone(),
            approved_account_ids: Vec::new(),
            next_approval_id: token.next_approval_id,
            royalty: copy_entries(&token.royalty),
        };
        proof {
            assert(entry_views(new_token.approved_account_ids@) =~= Seq::<
                (Seq<char>, u64),
            >::empty());
            assert(new_token@ == t.handed_to(receiver_id@));
        }
        let ghost old_self = *self;
        self.internal_remove_token_from_owner(&previous.owner_id, token_id);
        let ghost mid = *self;
        self.internal_add_token_to_owner(receiver_id, token_id);
        let ghost added = *self;
        self.tokens_by_id.insert(token_id.clone(), new_token);
        proof {
            assert(self.tokens() =~= old_self.tokens().insert(token_id@, new_token@));
            assert forall|a: Seq<char>| #[trigger]
                self.tokens_of(a) == if a == receiver_id@ {
                    old_self.tokens_of(a).remove(token_id@).insert(token_id@)
                } else {
                    old_self.tokens_of(a).remove(token_id@)
                } by {
                assert(self.tokens_of(a) =~= added.tokens_of(a));
                assert(added.tokens_of(a) == if a == receiver_id@ {
                    mid.tokens_of(a).insert(token_id@)
                } else {
                    mid.tokens_of(a)
                });
                assert(mid.tokens_of(a) == if a == t.owner_id {
                    old_self.tokens_of(a).remove(token_id@)
                } else {
                    old_self.tokens_of(a)
                });
                if a != t.owner_id {
                    if old_self.tokens_of(a).contains(token_id@) {
                        assert(old_self.tokens()[token_id@].owner_id == a);
                    }
                    assert(old_self.tokens_of(a).remove(token_id@) =~= old_self.tokens_of(a));
                }
            }
            Contract::lemma_owner_moved(&old_self, self, token_id@, new_token@);
        }
        let authorized_id = if *sender_id != previous.owner_id {
            Some(sender_id.clone())
        } else {
            None
        };
        let log = transfer_event(
            authorized_id,
            previous.owner_id.clone(),
            receiver_id.clone(),
            token_id.clone(),
            memo,
        );
        Ok((previous, log))
    }
}

/// `j` describes the token `token_id` of `c` as a view call reports it.
pub open spec fn describes_token(c: &Contract, token_id: Seq<char>, j: JsonToken) -> bool {
    let t = c.tokens()[token_id];
    &&& c.tokens().contains_key(token_id)
    &&& j.token_id@ == token_id
    &&& j.owner_id@ == t.owner_id
    &&& j.metadata == c.token_metadata()[token_id]
    &&& entry_views(j.approved_account_ids@) == t.approvals
    &&& entry_views(j.royalty@) == t.royalty
}

/// Moving tokens between accounts.
pub trait NonFungibleTokenCore {
    /// The invariant the calls below rely on.
    spec fn ledger_wf(&self) -> bool;

    /// Moves `token_id` to `receiver_id`.
    fn nft_transfer(
        &mut self,
        ctx: &CallContext,
        receiver_id: AccountId,
        token_id: TokenId,
        approval_id: Option<u64>,
        memo: Option<String>,
    ) -> Result<TransferOutcome, NftError>
        requires
            old(self).ledger_wf(),
    ;

    /// Moves `token_id` to `receiver_id` and asks the receiver's handler
    /// whether to keep it.
    fn nft_transfer_call(
        &mut self,
        ctx: &CallContext,
        receiver_id: AccountId,
        token_id: TokenId,
        approval_id: Option<u64>,
        memo: Option<String>,
        msg: String,
    ) -> Result<TransferCallOutcome, NftError>
        requires
            old(self).ledger_wf(),
    ;

    /// What a view call reports about `token_id`.
    fn nft_token(&self, token_id: TokenId) -> Option<JsonToken>
        requires
            self.ledger_wf(),
    ;
}

impl NonFungibleTokenCore for Contract {
    open spec fn ledger_wf(&self) -> bool {
        self.wf()
    }

    fn nft_transfer(
        &mut self,
        ctx: &CallContext,
        receiver_id: AccountId,
        token_id: TokenId,
        approval_id: Option<u64>,
        memo: Option<String>,
    ) -> (r: Result<TransferOutcome, NftError>)
        ensures
            final(self).wf(),
            match paid_transfer_error(old(self), ctx, receiver_id@, token_id@, approval_id) {
                Some(e) => r == Err::<TransferOutcome, NftError>(e) && *final(self) == *old(self),
                None => {
                    let t = old(self).tokens()[token_id@];
                    &&& final(self).tokens() == old(self).tokens().insert(
                        token_id@,
                        t.handed_to(receiver_id@),
                    )
                    &&& final(self).keeps_catalog_of(old(self))
                    &&& r is Ok
                    &&& r.unwrap().refund.receiver_id@ == t.owner_id
                    &&& r.unwrap().refund.amount == credit_amount(
                        approvals_bytes(t.approvals) as int,
                        ctx.storage_byte_cost,
                    )
                    &&& is_transfer_event(
                        r.unwrap().log,
                        authorized_by(ctx.predecessor_id@, t.owner_id),
                        t.owner_id,
                        receiver_id@,
                        token_id@,
                        opt_view(memo),
                    )
                },
            },
    {
        if ctx.attached_deposit != 1 {
            return Err(NftError::InsufficientPayment);
        }
        match self.internal_transfer(&ctx.predecessor_id, &receiver_id, &token_id, approval_id, memo) {
            Err(e) => Err(e),
            Ok((previous, log)) => {
                let refund = credit_approvals(
                    previous.owner_id.clone(),
                    &previous.approved_account_ids,
                    ctx.storage_byte_cost,
                );
                Ok(TransferOutcome { refund, log })
            },
        }
    }

    fn nft_transfer_call(
        &mut self,
        ctx: &CallContext,
        receiver_id: AccountId,
        token_id: TokenId,
        approval_id: Option<u64>,
        memo: Option<String>,
        msg: String,
    ) -> (r: Result<TransferCallOutcome, NftError>)
        ensures
            final(self).wf(),
            match paid_transfer_error(old(self), ctx, receiver_id@, token_id@, approval_id) {
                Some(e) => r == Err::<TransferCallOutcome, NftError>(e) && *final(self) == *old(
                    self,
                ),
                None => {
                    let t = old(self).tokens()[token_id@];
                    let sender = ctx.predecessor_id@;
                    &&& final(self).tokens() == old(self).tokens().insert(
                        token_id@,
                        t.handed_to(receiver_id@),
                    )
                    &&& final(self).keeps_catalog_of(old(self))
                    &&& r is Ok
                    &&& is_transfer_event(
                        r.unwrap().log,
                        authorized_by(sender, t.owner_id),
                        t.owner_id,
                        receiver_id@,
                        token_id@,
                        opt_view(memo),
                    )
                    &&& r.unwrap().notice.receiver_id@ == receiver_id@
                    &&& r.unwrap().notice.sender_id@ == sender
                    &&& r.unwrap().notice.previous_owner_id@ == t.owner_id
                    &&& r.unwrap().notice.token_id@ == token_id@
                    &&& r.unwrap().notice.msg@ == msg@
                    &&& opt_view(r.unwrap().resolution.authorized_id) == authorized_by(
                        sender,
                        t.owner_id,
                    )
                    &&& r.unwrap().resolution.owner_id@ == t.owner_id
                    &&& r.unwrap().resolution.receiver_id@ == receiver_id@
                    &&& r.unwrap().resolution.token_id@ == token_id@
                    &&& entry_views(r.unwrap().resolution.approved_account_ids@) == t.approvals
                    &&& opt_view(r.unwrap().resolution.memo) == opt_view(memo)
                    &&& snapshot_wf(t.approvals)
                },
            },
    {
        if ctx.attached_deposit != 1 {
            return Err(NftError::InsufficientPayment);
        }
        let ghost t = self.tokens()[token_id@];
        match self.internal_transfer(
            &ctx.predecessor_id,
            &receiver_id,
            &token_id,
            approval_id,
            copy_memo(&memo),
        ) {
            Err(e) => Err(e),
            Ok((previous, log)) => {
                proof {
                    assert(snapshot_wf(t.approvals)) by {
                        assert forall|i: int| 0 <= i < t.approvals.len() implies #[trigger]
                            t.approvals[i].1 < u64::MAX by {
                            assert(t.approvals[i].1 < t.next_approval_id);
                        }
                    }
                }
                let authorized_id = if ctx.predecessor_id != previous.owner_id {
                    Some(ctx.predecessor_id.clone())
                } else {
                    None
                };
                let notice = TransferNotice {
                    receiver_id: receiver_id.clone(),
                    sender_id: ctx.predecessor_id.clone(),
                    previous_owner_id: previous.owner_id.clone(),
                    token_id: token_id.clone(),
                    msg,
                };
                let resolution = PendingResolution {
                    authorized_id,
                    owner_id: previous.owner_id,
                    receiver_id,
                    token_id,
                    approved_account_ids: previous.approved_account_ids,
                    memo,
                };
                Ok(TransferCallOutcome { log, notice, resolution })
            },
        }
    }

    fn nft_token(&self, token_id: TokenId) -> (r: Option<JsonToken>)
        ensures
            match r {
                Some(j) => describes_token(self, token_id@, j),
                None => !self.tokens().contains_key(token_id@),
            },
    {
        match self.tokens_by_id.get(token_id.as_str()) {
            Some(token) => {
                let metadata = match self.token_metadata_by_id.get(token_id.as_str()) {
                    Some(m) => m.copy(),
                    None => {
                        proof {
                            assert(self.tokens_by_id@.contains_key(token_id@));
                        }
                        return None;
                    },
                };
                Some(
                    JsonToken {
                        token_id,
                        owner_id: token.owner_id.clone(),
                        metadata,
                        approved_account_ids: copy_entries(&token.approved_account_ids),
                        royalty: copy_entries(&token.royalty),
                    },
                )
            },
            None => None,
        }
    }
}

/// A copy of an optional memo.
fn copy_memo(memo: &Option<String>) -> (r: Option<String>)
    ensures
        r == *memo,
{
    match memo {
        Some(m) => Some(m.clone()),
        None => None,
    }
}

impl Contract {
    /// Settles a transfer of `token_id` from `owner_id` to `receiver_id`
    /// given the receiver's `answer`: `Some(false)` keeps it; anything else
    /// undoes it, unless the token is gone or has moved on since. Undoing
    /// gives the token back to `owner_id` with the approvals of
    /// `approved_account_ids` and refunds the receiver for the approvals it
    /// set meanwhile; keeping refunds `owner_id` for the approvals the
    /// transfer cleared.
    pub fn resolve_transfer_answer(
        &mut self,
        storage_byte_cost: u128,
        authorized_id: Option<String>,
        owner_id: AccountId,
        receiver_id: AccountId,
        token_id: TokenId,
        approved_account_ids: Vec<(AccountId, u64)>,
        memo: Option<String>,
        answer: Option<bool>,
    ) -> (r: ResolveOutcome)
        requires
            old(self).wf(),
            snapshot_wf(entry_views(approved_account_ids@)),
        ensures
            resolution(
                old(self),
                final(self),
                r,
                storage_byte_cost,
                opt_view(authorized_id),
                owner_id@,
                receiver_id@,
                token_id@,
                entry_views(approved_account_ids@),
                opt_view(memo),
                answer,
            ),
    {
        if answer == Some(false) {
            let refund = credit_approvals(owner_id, &approved_account_ids, storage_byte_cost);
            return ResolveOutcome { reverted: false, refund, log: None };
        }
        let token = match self.tokens_by_id.get(token_id.as_str()) {
            Some(t) => t,
            None => {
                let refund = credit_approvals(owner_id, &approved_account_ids, storage_byte_cost);
                return ResolveOutcome { reverted: false, refund, log: None };
            },
        };
        if token.owner_id != receiver_id {
            let refund = credit_approvals(owner_id, &approved_account_ids, storage_byte_cost);
            return ResolveOutcome { reverted: false, refund, log: None };
        }
        let ghost cur = token@;
        let ghost snapshot = entry_views(approved_account_ids@);
        let refund = credit_approvals(
            receiver_id.clone(),
            &token.approved_account_ids,
            storage_byte_cost,
        );
        let counter = restored_counter_of(&approved_account_ids, token.next_approval_id);
        let new_token = Token {
            owner_id: owner_id.clone(),
            approved_account_ids,
            next_approval_id: counter,
            royalty: copy_entries(&token.royalty),
        };
        proof {
            lemma_ids_bound(snapshot);
            assert(new_token@ == reverted_token(cur, owner_id@, snapshot));
            assert(new_token@.wf());
        }
        let ghost old_self = *self;
        proof {
            assert(old_self.tokens().contains_key(token_id@));
            assert(old_self.tokens()[token_id@] == cur);
            assert(old_self.tokens_of(cur.owner_id).contains(token_id@));
        }
        self.internal_remove_token_from_owner(&receiver_id, &token_id);
        let ghost mid = *self;
        proof {
            assert(!mid.tokens_of(owner_id@).contains(token_id@)) by {
                if owner_id@ != receiver_id@ && old_self.tokens_of(owner_id@).contains(token_id@) {
                    assert(old_self.tokens()[token_id@].owner_id == owner_id@);
                }
            }
        }
        self.internal_add_token_to_owner(&owner_id, &token_id);
        let ghost added = *self;
        self.tokens_by_id.insert(token_id.clone(), new_token);
        proof {
            assert(self.tokens() =~= old_self.tokens().insert(token_id@, new_token@));
            assert forall|a: Seq<char>| #[trigger]
                self.tokens_of(a) == if a == owner_id@ {
                    old_self.tokens_of(a).remove(token_id@).insert(token_id@)
                } else {
                    old_self.tokens_of(a).remove(token_id@)
                } by {
                assert(self.tokens_of(a) =~= added.tokens_of(a));
                assert(added.tokens_of(a) == if a == owner_id@ {
                    mid.tokens_of(a).insert(token_id@)
                } else {
                    mid.tokens_of(a)
                });
                assert(mid.tokens_of(a) == if a == receiver_id@ {
                    old_self.tokens_of(a).remove(token_id@)
                } else {
                    old_self.tokens_of(a)
                });
                if a != receiver_id@ {
                    if old_self.tokens_of(a).contains(token_id@) {
                        assert(old_self.tokens()[token_id@].owner_id == a);
                    }
                    assert(old_self.tokens_of(a).remove(token_id@) =~= old_self.tokens_of(a));
                }
            }
            Contract::lemma_owner_moved(&old_self, self, token_id@, new_token@);
        }
        let log = transfer_event(authorized_id, receiver_id, owner_id, token_id, memo);
        ResolveOutcome { reverted: true, refund, log: Some(log) }
    }

    /// Settles a transfer once the receiver's handler has answered with
    /// `result`: the answer is the JSON boolean in its payload, and a failed
    /// call or a payload that is not a boolean counts as a request to undo
    /// the transfer. See `resolve_transfer_answer`.
    pub fn nft_resolve_transfer(
        &mut self,
        storage_byte_cost: u128,
        authorized_id: Option<String>,
        owner_id: AccountId,
        receiver_id: AccountId,
        token_id: TokenId,
        approved_account_ids: Vec<(AccountId, u64)>,
        memo: Option<String>,
        result: PromiseResult,
    ) -> (r: ResolveOutcome)
        requires
            old(self).wf(),
            snapshot_wf(entry_views(approved_account_ids@)),
        ensures
            resolution(
                old(self),
                final(self),
                r,
                storage_byte_cost,
                opt_view(authorized_id),
                owner_id@,
                receiver_id@,
                token_id@,
                entry_views(approved_account_ids@),
                opt_view(memo),
                notification_answer(result),
            ),
    {
        let answer = match &result {
            PromiseResult::Successful(payload) => decode_bool(payload),
            PromiseResult::Failed => None,
        };
        self.resolve_transfer_answer(
            storage_byte_cost,
            authorized_id,
            owner_id,
            receiver_id,
            token_id,
            approved_account_ids,
            memo,
            answer,
        )
    }
}

} // verus!
