//! Creating tokens.
use vstd::prelude::*;

use crate::events::{EventLog, EventLogVariant, NftMintLog, NFT_METADATA_SPEC, NFT_STANDARD_NAME};
use crate::metadata::{entry_views, AccountId, Token, TokenId, TokenMetadata, TokenView};
use crate::{views_distinct, Contract, NftError};

verus! {

/// The largest number of royalty entries a token may carry.
pub const MAX_ROYALTY_SPLITS: usize = 6;

/// The error a mint meets, if any, in the order the checks are made.
pub open spec fn mint_error(
    c: &Contract,
    token_id: Seq<char>,
    perpetual_royalties: Option<Vec<(AccountId, u32)>>,
) -> Option<NftError> {
    if perpetual_royalties is Some && perpetual_royalties.unwrap().len() > MAX_ROYALTY_SPLITS {
        Some(NftError::TooManyRoyaltySplits)
    } else if c.tokens().contains_key(token_id) {
        Some(NftError::TokenExists)
    } else {
        None
    }
}

/// The record of a freshly minted token.
pub open spec fn minted_token(
    owner: Seq<char>,
    perpetual_royalties: Option<Vec<(AccountId, u32)>>,
) -> TokenView {
    TokenView {
        owner_id: owner,
        approvals: Seq::empty(),
        next_approval_id: 0,
        royalty: match perpetual_royalties {
            Some(v) => entry_views(v@),
            None => Seq::empty(),
        },
    }
}

/// `l` is the standard's record of `token_id` minted to `owner`.
pub open spec fn is_mint_event(l: EventLog, owner: Seq<char>, token_id: Seq<char>) -> bool {
    &&& l.standard@ == NFT_STANDARD_NAME@
    &&& l.version@ == NFT_METADATA_SPEC@
    &&& match l.event {
        EventLogVariant::NftMint(v) => {
            &&& v@.len() == 1
            &&& v@[0].owner_id@ == owner
            &&& v@[0].token_ids@.len() == 1
            &&& v@[0].token_ids@[0]@ == token_id
            &&& v@[0].memo is None
        },
        _ => false,
    }
}

impl Contract {
    /// Creates `token_id`, owned by `receiver_id`, with `metadata` and the
    /// given royalty entries. The storage this takes is measured and billed
    /// by the caller.
    pub fn nft_mint(
        &mut self,
        token_id: TokenId,
        metadata: TokenMetadata,
        receiver_id: AccountId,
        perpetual_royalties: Option<Vec<(AccountId, u32)>>,
    ) -> (r: Result<EventLog, NftError>)
        requires
            old(self).wf(),
        ensures
            final(self).wf(),
            match mint_error(old(self), token_id@, perpetual_royalties) {
                Some(e) => r == Err::<EventLog, NftError>(e) && *final(self) == *old(self),
                None => {
                    &&& final(self).tokens() == old(self).tokens().insert(
                        token_id@,
                        minted_token(receiver_id@, perpetual_royalties),
                    )
                    &&& final(self).token_order() == old(self).token_order().push(token_id@)
                    &&& final(self).token_metadata() == old(self).token_metadata().insert(
                        token_id@,
                        metadata,
                    )
                    &&& final(self).contract_owner() == old(self).contract_owner()
                    &&& r is Ok
                    &&& is_mint_event(r.unwrap(), receiver_id@, token_id@)
                },
            },
    {
        let ghost royalties_in = perpetual_royalties;
        let royalty = match perpetual_royalties {
            Some(v) => {
                if v.len() > MAX_ROYALTY_SPLITS {
                    return Err(NftError::TooManyRoyaltySplits);
                }
                v
            },
            None => Vec::new(),
        };
        if self.tokens_by_id.contains_key(token_id.as_str()) {
            return Err(NftError::TokenExists);
        }
        let token = Token {
            owner_id: receiver_id.clone(),
            approved_account_ids: Vec::new(),
            next_approval_id: 0,
            royalty,
        };
        proof {
            assert(entry_views(token.approved_account_ids@) =~= Seq::<(Seq<char>, u64)>::empty());
            if royalties_in is None {
                assert(entry_views(token.royalty@) =~= Seq::<(Seq<char>, u32)>::empty());
            }
            assert(token@ == minted_token(receiver_id@, royalties_in));
        }
        let ghost old_self = *self;
        proof {
            assert(!old_self.tokens_of(receiver_id@).contains(token_id@));
        }
        self.internal_add_token_to_owner(&receiver_id, &token_id);
        let ghost added = *self;
        self.tokens_by_id.insert(token_id.clone(), token);
        self.token_metadata_by_id.insert(token_id.clone(), metadata);
        self.token_ids.push(token_id.clone());
        proof {
            assert(self.tokens() =~= old_self.tokens().insert(token_id@, token@));
            assert(self.token_order() =~= old_self.token_order().push(token_id@));
            assert forall|a: Seq<char>| #[trigger]
                self.tokens_of(a) == if a == receiver_id@ {
                    old_self.tokens_of(a).insert(token_id@)
                } else {
                    old_self.tokens_of(a)
                } by {
                assert(self.tokens_of(a) =~= added.tokens_of(a));
            }
            assert forall|a: Seq<char>, t: Seq<char>| #[trigger]
                self.tokens_of(a).contains(t) implies self.tokens().contains_key(t)
                    && self.tokens()[t].owner_id == a by {
                if t != token_id@ {
                    assert(old_self.tokens_of(a).contains(t));
                }
            }
            assert forall|t: Seq<char>| #[trigger]
                self.tokens().contains_key(t) implies self.tokens_of(
                    self.tokens()[t].owner_id,
                ).contains(t) by {
                if t != token_id@ {
                    assert(old_self.tokens_of(old_self.tokens()[t].owner_id).contains(t));
                }
            }
            assert(views_distinct(self.token_ids@)) by {
                assert forall|i: int, j: int| 0 <= i < j < self.token_ids@.len() implies
                    self.token_ids@[i]@ != self.token_ids@[j]@ by {
                    if j == old_self.token_ids@.len() {
                        assert(old_self.tokens_by_id@.contains_key(old_self.token_ids@[i]@));
                    } else {
                        assert(old_self.token_ids@[i]@ != old_self.token_ids@[j]@);
                    }
                }
            }
            assert forall|i: int| 0 <= i < self.token_ids.len() implies self.tokens_by_id@.contains_key(
                #[trigger] self.token_ids@[i]@,
            ) by {
                if i < old_self.token_ids.len() {
                    assert(old_self.tokens_by_id@.contains_key(old_self.token_ids@[i]@));
                }
            }
            assert forall|t: Seq<char>| #[trigger]
                self.tokens_by_id@.contains_key(t) implies exists|i: int|
                0 <= i < self.token_ids.len() && #[trigger] self.token_ids@[i]@ == t by {
                if t == token_id@ {
                    assert(self.token_ids@[old_self.token_ids.len() as int]@ == t);
                } else {
                    let i = choose|i: int|
                        0 <= i < old_self.token_ids.len() && #[trigger] old_self.token_ids@[i]@ == t;
                    assert(self.token_ids@[i]@ == t);
                }
            }
        }
        let mut token_ids: Vec<String> = Vec::new();
        token_ids.push(token_id);
        let record = NftMintLog { owner_id: receiver_id, token_ids, memo: None };
        let mut records: Vec<NftMintLog> = Vec::new();
        records.push(record);
        Ok(
            EventLog {
                standard: NFT_STANDARD_NAME.to_owned(),
                version: NFT_METADATA_SPEC.to_owned(),
                event: EventLogVariant::NftMint(records),
            },
        )
    }
}

} // verus!
