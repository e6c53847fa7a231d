//! Token records, their abstract views, and the descriptive metadata that the
//! ledger stores beside them.
use vstd::prelude::*;

verus! {

/// The identifier of a token.
pub type TokenId = String;

/// The identifier of an account (an identity that can own or be approved).
pub type AccountId = String;

/// Payout split reported to a marketplace: account and amount.
pub struct Payout {
    pub payout: Vec<(AccountId, u128)>,
}

/// Descriptive metadata of the whole contract.
pub struct NFTContractMetadata {
    pub spec: String,
    pub name: String,
    pub symbol: String,
    pub icon: Option<String>,
    pub base_uri: Option<String>,
    pub reference: Option<String>,
    /// Base64 of the sha256 hash of the JSON file behind `reference`.
    pub reference_hash: Option<String>,
}

/// Descriptive metadata of one token.
pub struct TokenMetadata {
    pub title: Option<String>,
    pub description: Option<String>,
    pub media: Option<String>,
    /// Base64 of the sha256 hash of the content behind `media`.
    pub media_hash: Option<String>,
    pub copies: Option<u64>,
    pub issued_at: Option<String>,
    pub expires_at: Option<String>,
    pub starts_at: Option<String>,
    pub updated_at: Option<String>,
    pub extra: Option<String>,
    pub reference: Option<String>,
    /// Base64 of the sha256 hash of the content behind `reference`.
    pub reference_hash: Option<String>,
}

/// The record kept for each token.
///
/// `approved_account_ids` holds each approved account once, with its grant
/// id; `next_approval_id` is above every grant id ever issued for the token.
pub struct Token {
    pub owner_id: AccountId,
    pub approved_account_ids: Vec<(AccountId, u64)>,
    pub next_approval_id: u64,
    pub royalty: Vec<(AccountId, u32)>,
}

/// What a view call returns about one token.
pub struct JsonToken {
    pub token_id: TokenId,
    pub owner_id: AccountId,
    pub metadata: TokenMetadata,
    pub approved_account_ids: Vec<(AccountId, u64)>,
    pub royalty: Vec<(AccountId, u32)>,
}

/// Read access to the contract metadata.
pub trait NonFungibleTokenMetadata {
    fn nft_metadata(&self) -> NFTContractMetadata;
}

/// A copy of an optional string.
fn copy_opt(o: &Option<String>) -> (r: Option<String>)
    ensures
        r == *o,
{
    match o {
        Some(s) => Some(s.clone()),
        None => None,
    }
}

impl NFTContractMetadata {
    /// A copy of this metadata.
    pub fn copy(&self) -> (r: NFTContractMetadata)
        ensures
            r == *self,
    {
        NFTContractMetadata {
            spec: self.spec.clone(),
            name: self.name.clone(),
            symbol: self.symbol.clone(),
            icon: copy_opt(&self.icon),
            base_uri: copy_opt(&self.base_uri),
            reference: copy_opt(&self.reference),
            reference_hash: copy_opt(&self.reference_hash),
        }
    }
}

impl TokenMetadata {
    /// A copy of this metadata.
    pub fn copy(&self) -> (r: TokenMetadata)
        ensures
            r == *self,
    {
        TokenMetadata {
            title: copy_opt(&self.title),
            description: copy_opt(&self.description),
            media: copy_opt(&self.media),
            media_hash: copy_opt(&self.media_hash),
            copies: self.copies,
            issued_at: copy_opt(&self.issued_at),
            expires_at: copy_opt(&self.expires_at),
            starts_at: copy_opt(&self.starts_at),
            updated_at: copy_opt(&self.updated_at),
            extra: copy_opt(&self.extra),
            reference: copy_opt(&self.reference),
            reference_hash: copy_opt(&self.reference_hash),
        }
    }
}

/// The entries of a list keyed by account, with each key seen as characters.
pub open spec fn entry_views<V>(s: Seq<(String, V)>) -> Seq<(Seq<char>, V)> {
    s.map_values(|e: (String, V)| (e.0@, e.1))
}

/// No key occurs twice.
pub open spec fn keys_distinct<V>(s: Seq<(Seq<char>, V)>) -> bool {
    forall|i: int, j: int| 0 <= i < j < s.len() ==> s[i].0 != s[j].0
}

/// `k` is a key of some entry.
pub open spec fn has_key<V>(s: Seq<(Seq<char>, V)>, k: Seq<char>) -> bool {
    exists|i: int| 0 <= i < s.len() && s[i].0 == k
}

/// The position of the entry keyed `k` (meaningful when `has_key(s, k)`).
pub open spec fn key_index<V>(s: Seq<(Seq<char>, V)>, k: Seq<char>) -> int {
    choose|i: int| 0 <= i < s.len() && s[i].0 == k
}

/// The value stored under `k`, if any.
pub open spec fn value_of<V>(s: Seq<(Seq<char>, V)>, k: Seq<char>) -> Option<V> {
    if has_key(s, k) {
        Some(s[key_index(s, k)].1)
    } else {
        None
    }
}

/// Abstract view of a token record.
pub ghost struct TokenView {
    pub owner_id: Seq<char>,
    pub approvals: Seq<(Seq<char>, u64)>,
    pub next_approval_id: u64,
    pub royalty: Seq<(Seq<char>, u32)>,
}

impl View for Token {
    type V = TokenView;

    open spec fn view(&self) -> TokenView {
        TokenView {
            owner_id: self.owner_id@,
            approvals: entry_views(self.approved_account_ids@),
            next_approval_id: self.next_approval_id,
            royalty: entry_views(self.royalty@),
        }
    }
}

impl TokenView {
    /// Each approved account occurs once, and every grant id held is below
    /// the next one to be issued.
    pub open spec fn wf(self) -> bool {
        &&& keys_distinct(self.approvals)
        &&& forall|i: int|
            0 <= i < self.approvals.len() ==> #[trigger] self.approvals[i].1 < self.next_approval_id
    }

    /// `account` holds an approval, with grant id `approval_id` when one is given.
    pub open spec fn is_approved(self, account: Seq<char>, approval_id: Option<u64>) -> bool {
        &&& has_key(self.approvals, account)
        &&& match approval_id {
            Some(id) => value_of(self.approvals, account) == Some(id),
            None => true,
        }
    }

    /// The token after `account` is approved: a new grant takes the next id
    /// and advances the counter; an existing grant is kept as it is.
    pub open spec fn with_grant(self, account: Seq<char>) -> TokenView {
        if has_key(self.approvals, account) {
            self
        } else {
            TokenView {
                approvals: self.approvals.push((account, self.next_approval_id)),
                next_approval_id: (self.next_approval_id + 1) as u64,
                ..self
            }
        }
    }

    /// The token after the approval of `account` is revoked.
    pub open spec fn without_grant(self, account: Seq<char>) -> TokenView {
        if has_key(self.approvals, account) {
            TokenView {
                approvals: self.approvals.remove(key_index(self.approvals, account)),
                ..self
            }
        } else {
            self
        }
    }

    /// The token with every approval revoked.
    pub open spec fn without_grants(self) -> TokenView {
        TokenView { approvals: Seq::empty(), ..self }
    }

    /// The token handed to `receiver`: approvals are cleared, the grant
    /// counter is kept so that no id is ever issued twice.
    pub open spec fn handed_to(self, receiver: Seq<char>) -> TokenView {
        TokenView { owner_id: receiver, approvals: Seq::empty(), ..self }
    }
}

} // verus!
