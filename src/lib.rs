//! A ledger of non-fungible tokens: ownership, approvals, transfers with an
//! asynchronous hand-off to the receiver, and storage metering.
use vstd::hash_map::StringHashMap;
use vstd::prelude::*;

pub mod metadata;
pub mod storage;
pub mod approval;
pub mod events;
pub mod nft_core;
pub mod mint;
pub mod enumeration;
mod internal;

pub use approval::{ApprovalNotice, ApproveOutcome};
pub use events::{EventLog, EventLogVariant, NftMintLog, NftTransferLog};
pub use nft_core::{
    PendingResolution, PromiseResult, ResolveOutcome, TransferCallOutcome, TransferNotice,
    TransferOutcome,
};
pub use storage::{CallContext, Payment};
pub use metadata::{
    AccountId, JsonToken, NFTContractMetadata, NonFungibleTokenMetadata, Payout, Token, TokenId,
    TokenMetadata, TokenView,
};

verus! {

/// Why a call on the ledger was refused. A refused call changes nothing.
#[derive(Debug, Clone, Copy, PartialEq, Eq, Structural)]
pub enum NftError {
    /// No token has the given id.
    NotFound,
    /// The caller is neither the owner nor an approved account.
    Unauthorized,
    /// The given grant id is not the one the approved account holds.
    StaleGrant,
    /// The receiver already owns the token.
    SelfTransfer,
    /// The attached deposit is not the one the call asks for, or does not
    /// cover the storage the call adds.
    InsufficientPayment,
    /// A token may carry at most six royalty entries.
    TooManyRoyaltySplits,
    /// A token with the given id already exists.
    TokenExists,
    /// The token has issued every grant id there is.
    ApprovalIdsExhausted,
}

/// No two strings of `s` are equal.
pub open spec fn views_distinct(s: Seq<String>) -> bool {
    forall|i: int, j: int| 0 <= i < j < s.len() ==> s[i]@ != s[j]@
}

/// The ledger: token records, the index of tokens by owner, and the
/// metadata kept beside them.
pub struct Contract {
    owner_id: AccountId,
    tokens_per_owner: StringHashMap<Vec<TokenId>>,
    tokens_by_id: StringHashMap<Token>,
    token_metadata_by_id: StringHashMap<TokenMetadata>,
    token_ids: Vec<TokenId>,
    metadata: NFTContractMetadata,
}

impl Contract {
    /// Each token record, by token id.
    pub closed spec fn tokens(&self) -> Map<Seq<char>, TokenView> {
        self.tokens_by_id@.map_values(|t: Token| t@)
    }

    /// The tokens that the index lists for `account`.
    pub closed spec fn tokens_of(&self, account: Seq<char>) -> Set<Seq<char>> {
        Set::new(
            |t: Seq<char>|
                self.tokens_per_owner@.contains_key(account) && exists|i: int|
                    0 <= i < self.tokens_per_owner@[account].len()
                        && #[trigger] self.tokens_per_owner@[account]@[i]@ == t,
        )
    }

    /// The token ids in the order they were minted.
    pub closed spec fn token_order(&self) -> Seq<Seq<char>> {
        self.token_ids@.map_values(|t: TokenId| t@)
    }

    /// The tokens of `account` in the order the index lists them.
    pub closed spec fn owner_tokens(&self, account: Seq<char>) -> Seq<Seq<char>> {
        if self.tokens_per_owner@.contains_key(account) {
            self.tokens_per_owner@[account]@.map_values(|t: TokenId| t@)
        } else {
            Seq::empty()
        }
    }

    /// The metadata of each token, by token id.
    pub closed spec fn token_metadata(&self) -> Map<Seq<char>, TokenMetadata> {
        self.token_metadata_by_id@
    }

    /// The descriptive metadata of the contract.
    pub closed spec fn contract_metadata(&self) -> NFTContractMetadata {
        self.metadata
    }

    /// The account that owns the contract.
    pub closed spec fn contract_owner(&self) -> Seq<char> {
        self.owner_id@
    }

    /// The index and the records agree: an account lists a token exactly
    /// when the token's record names that account as its owner.
    pub open spec fn index_agrees(&self) -> bool {
        &&& forall|a: Seq<char>, t: Seq<char>| #[trigger]
            self.tokens_of(a).contains(t) ==> self.tokens().contains_key(t)
                && self.tokens()[t].owner_id == a
        &&& forall|t: Seq<char>| #[trigger]
            self.tokens().contains_key(t) ==> self.tokens_of(self.tokens()[t].owner_id).contains(t)
    }

    /// Every token record is well formed.
    pub open spec fn records_wf(&self) -> bool {
        forall|t: Seq<char>| #[trigger] self.tokens().contains_key(t) ==> self.tokens()[t].wf()
    }

    /// The lists behind the index and behind enumeration hold each token
    /// once, and the minted tokens are exactly those with a record and
    /// metadata.
    pub closed spec fn lists_wf(&self) -> bool {
        &&& forall|a: Seq<char>| #[trigger]
            self.tokens_per_owner@.contains_key(a) ==> views_distinct(self.tokens_per_owner@[a]@)
        &&& views_distinct(self.token_ids@)
        &&& forall|t: Seq<char>|
            #![trigger self.tokens_by_id@.contains_key(t)]
            #![trigger self.token_metadata_by_id@.contains_key(t)]
            self.tokens_by_id@.contains_key(t) <==> self.token_metadata_by_id@.contains_key(t)
        &&& forall|i: int|
            0 <= i < self.token_ids.len() ==> self.tokens_by_id@.contains_key(
                #[trigger] self.token_ids@[i]@,
            )
        &&& forall|t: Seq<char>| #[trigger]
            self.tokens_by_id@.contains_key(t) ==> exists|i: int|
                0 <= i < self.token_ids.len() && #[trigger] self.token_ids@[i]@ == t
    }

    /// `self` has the same token order, token metadata and contract owner
    /// as `other`.
    pub open spec fn keeps_catalog_of(&self, other: &Contract) -> bool {
        &&& self.token_order() == other.token_order()
        &&& self.token_metadata() == other.token_metadata()
        &&& self.contract_owner() == other.contract_owner()
        &&& self.contract_metadata() == other.contract_metadata()
    }

    /// The contract owner, token metadata, token order and contract metadata
    /// are the same in `self` and `other`.
    pub closed spec fn same_catalog_fields(&self, other: &Contract) -> bool {
        &&& self.owner_id == other.owner_id
        &&& self.token_metadata_by_id == other.token_metadata_by_id
        &&& self.token_ids == other.token_ids
        &&& self.metadata == other.metadata
    }

    /// Every field but the token records is the same in `self` and `other`.
    pub closed spec fn same_but_records(&self, other: &Contract) -> bool {
        &&& self.owner_id == other.owner_id
        &&& self.tokens_per_owner == other.tokens_per_owner
        &&& self.token_metadata_by_id == other.token_metadata_by_id
        &&& self.token_ids == other.token_ids
        &&& self.metadata == other.metadata
    }

    /// The index lists hold each token once.
    pub closed spec fn index_lists_wf(&self) -> bool {
        forall|a: Seq<char>| #[trigger]
            self.tokens_per_owner@.contains_key(a) ==> views_distinct(self.tokens_per_owner@[a]@)
    }

    /// Every field but the index is the same in `self` and `other`.
    pub closed spec fn same_but_index(&self, other: &Contract) -> bool {
        &&& self.owner_id == other.owner_id
        &&& self.tokens_by_id == other.tokens_by_id
        &&& self.token_metadata_by_id == other.token_metadata_by_id
        &&& self.token_ids == other.token_ids
        &&& self.metadata == other.metadata
    }

    /// The ledger's invariant.
    pub open spec fn wf(&self) -> bool {
        &&& self.index_agrees()
        &&& self.records_wf()
        &&& self.lists_wf()
    }

    /// In a well-formed ledger an account lists a token in the index
    /// exactly when the token's record names that account as its owner.
    pub proof fn lemma_index_agrees_with_owners(&self)
        requires
            self.wf(),
        ensures
            forall|a: Seq<char>, t: Seq<char>|
                #[trigger] self.tokens_of(a).contains(t) <==> (self.tokens().contains_key(t)
                    && self.tokens()[t].owner_id == a),
    {
        assert forall|a: Seq<char>, t: Seq<char>|
            self.tokens().contains_key(t) && self.tokens()[t].owner_id == a implies #[trigger]
            self.tokens_of(a).contains(t) by {
            assert(self.tokens_of(self.tokens()[t].owner_id).contains(t));
        }
    }

    /// A ledger with no tokens, owned by `owner_id`.
    pub fn new(owner_id: AccountId, metadata: NFTContractMetadata) -> (r: Self)
        ensures
            r.wf(),
            r.tokens() == Map::<Seq<char>, TokenView>::empty(),
            r.token_order() == Seq::<Seq<char>>::empty(),
            r.contract_owner() == owner_id@,
            r.contract_metadata() == metadata,
    {
        let r = Contract {
            owner_id,
            tokens_per_owner: StringHashMap::new(),
            tokens_by_id: StringHashMap::new(),
            token_metadata_by_id: StringHashMap::new(),
            token_ids: Vec::new(),
            metadata,
        };
        proof {
            assert(r.tokens() =~= Map::<Seq<char>, TokenView>::empty());
            assert(r.token_order() =~= Seq::<Seq<char>>::empty());
        }
        r
    }

    /// A ledger with no tokens, owned by `owner_id`, with the default
    /// contract metadata.
    pub fn new_default_meta(owner_id: AccountId) -> (r: Self)
        ensures
            r.wf(),
            r.tokens() == Map::<Seq<char>, TokenView>::empty(),
            r.token_order() == Seq::<Seq<char>>::empty(),
            r.contract_owner() == owner_id@,
            r.contract_metadata().spec@ == "nft-1.0.0"@,
            r.contract_metadata().name@ == "NFT Tutorial Contract"@,
            r.contract_metadata().symbol@ == "Linktown-portfolio"@,
            r.contract_metadata().icon is None,
            r.contract_metadata().base_uri is None,
            r.contract_metadata().reference is None,
            r.contract_metadata().reference_hash is None,
    {
        Contract::new(
            owner_id,
            NFTContractMetadata {
                spec: "nft-1.0.0".to_owned(),
                name: "NFT Tutorial Contract".to_owned(),
                symbol: "Linktown-portfolio".to_owned(),
                icon: None,
                base_uri: None,
                reference: None,
                reference_hash: None,
            },
        )
    }
}

impl NonFungibleTokenMetadata for Contract {
    fn nft_metadata(&self) -> (r: NFTContractMetadata)
        ensures
            r == self.contract_metadata(),
    {
        self.metadata.copy()
    }
}

} // verus!
