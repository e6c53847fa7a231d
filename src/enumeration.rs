//! Listing the tokens of the ledger, page by page.
use vstd::prelude::*;

use crate::metadata::{AccountId, JsonToken, TokenId};
use crate::nft_core::{describes_token, NonFungibleTokenCore};
use crate::{views_distinct, Contract};

verus! {

/// The number of items a page holds when the caller gives no limit.
pub const DEFAULT_PAGE_LIMIT: u64 = 50;

/// The number of items on the page that starts at `start` and holds at most
/// `limit` of `len` items.
pub open spec fn page_len(len: int, start: int, limit: int) -> int {
    if start >= len {
        0
    } else if len - start < limit {
        len - start
    } else {
        limit
    }
}

/// The page start a caller asked for (zero when none).
pub open spec fn page_start(from_index: Option<u128>) -> int {
    match from_index {
        Some(i) => i as int,
        None => 0,
    }
}

/// The page limit a caller asked for (the default when none).
pub open spec fn page_limit(limit: Option<u64>) -> int {
    match limit {
        Some(l) => l as int,
        None => DEFAULT_PAGE_LIMIT as int,
    }
}

/// `r` is the page of `ids` that starts at `from_index` and holds at most
/// `limit` tokens, each described as a view call reports it.
pub open spec fn is_page(
    c: &Contract,
    ids: Seq<Seq<char>>,
    from_index: Option<u128>,
    limit: Option<u64>,
    r: Seq<JsonToken>,
) -> bool {
    let start = page_start(from_index);
    &&& r.len() == page_len(ids.len() as int, start, page_limit(limit))
    &&& forall|i: int| 0 <= i < r.len() ==> describes_token(c, ids[start + i], #[trigger] r[i])
}

/// The described tokens of `ids` from position `from_index` on, at most
/// `limit` of them.
fn page_of(c: &Contract, ids: &Vec<TokenId>, from_index: Option<u128>, limit: Option<u64>) -> (r:
    Vec<JsonToken>)
    requires
        c.wf(),
        forall|i: int| 0 <= i < ids.len() ==> c.tokens().contains_key(#[trigger] ids@[i]@),
    ensures
        is_page(c, ids@.map_values(|t: TokenId| t@), from_index, limit, r@),
{
    let ghost views = ids@.map_values(|t: TokenId| t@);
    let start: u128 = match from_index {
        Some(i) => i,
        None => 0,
    };
    let limit: u64 = match limit {
        Some(l) => l,
        None => DEFAULT_PAGE_LIMIT,
    };
    let mut r: Vec<JsonToken> = Vec::new();
    if start >= ids.len() as u128 {
        return r;
    }
    let first = start as usize;
    let mut i: usize = first;
    while i < ids.len() && ((i - first) as u64) < limit
        invariant
            first <= i <= ids.len(),
            first == start,
            r.len() == i - first,
            i - first <= limit,
            views == ids@.map_values(|t: TokenId| t@),
            c.wf(),
            forall|j: int| 0 <= j < ids.len() ==> c.tokens().contains_key(#[trigger] ids@[j]@),
            forall|j: int| 0 <= j < r.len() ==> describes_token(c, views[first + j], #[trigger] r@[j]),
        decreases ids.len() - i,
    {
        let t = c.nft_token(ids[i].clone());
        match t {
            Some(j) => {
                r.push(j);
            },
            None => {
                proof {
                    assert(c.tokens().contains_key(ids@[i as int]@));
                }
                return r;
            },
        }
        i = i + 1;
    }
    r
}

impl Contract {
    /// The number of tokens in the ledger.
    pub fn nft_total_supply(&self) -> (r: u128)
        requires
            self.wf(),
        ensures
            r == self.token_order().len(),
            r == self.tokens().dom().len(),
    {
        proof {
            let order = self.token_order();
            assert(order.no_duplicates()) by {
                assert forall|i: int, j: int|
                    0 <= i < order.len() && 0 <= j < order.len() && i != j implies order[i]
                    != order[j] by {
                    if i < j {
                        assert(self.token_ids@[i]@ != self.token_ids@[j]@);
                    } else {
                        assert(self.token_ids@[j]@ != self.token_ids@[i]@);
                    }
                }
            }
            order.unique_seq_to_set();
            assert(order.to_set() =~= self.tokens().dom()) by {
                assert forall|t: Seq<char>| order.to_set().contains(t) implies self.tokens().dom().contains(t) by {
                    let i = choose|i: int| 0 <= i < order.len() && order[i] == t;
                    assert(self.tokens_by_id@.contains_key(self.token_ids@[i]@));
                }
                assert forall|t: Seq<char>| self.tokens().dom().contains(t) implies order.to_set().contains(t) by {
                    assert(self.tokens_by_id@.contains_key(t));
                    let i = choose|i: int|
                        0 <= i < self.token_ids.len() && #[trigger] self.token_ids@[i]@ == t;
                    assert(order[i] == t);
                }
            }
        }
        self.token_ids.len() as u128
    }

    /// The tokens of the ledger in mint order, from position `from_index`
    /// (zero when none) on, at most `limit` of them (fifty when none).
    pub fn nft_tokens(&self, from_index: Option<u128>, limit: Option<u64>) -> (r: Vec<JsonToken>)
        requires
            self.wf(),
        ensures
            is_page(self, self.token_order(), from_index, limit, r@),
    {
        page_of(self, &self.token_ids, from_index, limit)
    }

    /// The number of tokens that `account_id` owns.
    pub fn nft_supply_for_owner(&self, account_id: AccountId) -> (r: u128)
        requires
            self.wf(),
        ensures
            r == self.tokens_of(account_id@).len(),
            r == self.owner_tokens(account_id@).len(),
    {
        let ghost a = account_id@;
        let n: usize = match self.tokens_per_owner.get(account_id.as_str()) {
            Some(list) => list.len(),
            None => 0,
        };
        proof {
            let s = self.owner_tokens(a);
            assert(s.no_duplicates()) by {
                if self.tokens_per_owner@.contains_key(a) {
                    let l = self.tokens_per_owner@[a]@;
                    assert(views_distinct(l));
                    assert forall|i: int, j: int|
                        0 <= i < s.len() && 0 <= j < s.len() && i != j implies s[i] != s[j] by {
                        if i < j {
                            assert(l[i]@ != l[j]@);
                        } else {
                            assert(l[j]@ != l[i]@);
                        }
                    }
                }
            }
            s.unique_seq_to_set();
            assert(s.to_set() =~= self.tokens_of(a)) by {
                assert forall|t: Seq<char>| s.to_set().contains(t) implies self.tokens_of(a).contains(t) by {
                    let i = choose|i: int| 0 <= i < s.len() && s[i] == t;
                    assert(self.tokens_per_owner@[a]@[i]@ == t);
                }
                assert forall|t: Seq<char>| self.tokens_of(a).contains(t) implies s.to_set().contains(t) by {
                    let i = choose|i: int|
                        0 <= i < self.tokens_per_owner@[a].len()
                            && #[trigger] self.tokens_per_owner@[a]@[i]@ == t;
                    assert(s[i] == t);
                }
            }
        }
        n as u128
    }

    /// The tokens of `account_id` in the order the index lists them, from
    /// position `from_index` (zero when none) on, at most `limit` of them
    /// (fifty when none).
    pub fn nft_tokens_for_owner(
        &self,
        account_id: AccountId,
        from_index: Option<u128>,
        limit: Option<u64>,
    ) -> (r: Vec<JsonToken>)
        requires
            self.wf(),
        ensures
            is_page(self, self.owner_tokens(account_id@), from_index, limit, r@),
    {
        match self.tokens_per_owner.get(account_id.as_str()) {
            Some(list) => {
                proof {
                    assert forall|i: int| 0 <= i < list.len() implies self.tokens().contains_key(
                        #[trigger] list@[i]@,
                    ) by {
                        assert(self.tokens_of(account_id@).contains(list@[i]@));
                    }
                }
                page_of(self, list, from_index, limit)
            },
            None => Vec::new(),
        }
    }
}

} // verus!
