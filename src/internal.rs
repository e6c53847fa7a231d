//! Helpers shared by the ledger's operations: copying and searching entry
//! lists, and keeping the index of tokens by owner.
use vstd::prelude::*;

use crate::metadata::{
    entry_views, has_key, key_index, keys_distinct, value_of, AccountId, TokenId, TokenView,
};
use crate::{views_distinct, Contract};

verus! {

/// In a list with distinct keys, the entry at `i` is the one found for its key.
pub proof fn lemma_key_at<V>(s: Seq<(Seq<char>, V)>, i: int)
    requires
        keys_distinct(s),
        0 <= i < s.len(),
    ensures
        has_key(s, s[i].0),
        key_index(s, s[i].0) == i,
        value_of(s, s[i].0) == Some(s[i].1),
{
    let k = s[i].0;
    assert(has_key(s, k));
    let j = key_index(s, k);
    if j < i {
        assert(s[j].0 != s[i].0);
    } else if i < j {
        assert(s[i].0 != s[j].0);
    }
}

/// A copy of a list of entries keyed by account.
pub fn copy_entries<V: Copy>(v: &Vec<(AccountId, V)>) -> (r: Vec<(AccountId, V)>)
    ensures
        r@ == v@,
{
    let mut r: Vec<(AccountId, V)> = Vec::new();
    let mut i: usize = 0;
    while i < v.len()
        invariant
            i <= v.len(),
            r@ == v@.subrange(0, i as int),
        decreases v.len() - i,
    {
        let e = (v[i].0.clone(), v[i].1);
        r.push(e);
        proof {
            assert(r@ =~= v@.subrange(0, i + 1));
        }
        i = i + 1;
    }
    proof {
        assert(v@.subrange(0, v.len() as int) =~= v@);
    }
    r
}

/// The position of the entry keyed `key`, if there is one.
pub fn find_entry<V>(v: &Vec<(AccountId, V)>, key: &AccountId) -> (r: Option<usize>)
    ensures
        match r {
            Some(i) => i < v.len() && v@[i as int].0@ == key@,
            None => !has_key(entry_views(v@), key@),
        },
{
    let mut i: usize = 0;
    while i < v.len()
        invariant
            i <= v.len(),
            forall|j: int| 0 <= j < i ==> #[trigger] v@[j].0@ != key@,
        decreases v.len() - i,
    {
        if v[i].0 == *key {
            return Some(i);
        }
        i = i + 1;
    }
    proof {
        if has_key(entry_views(v@), key@) {
            let j = choose|j: int| 0 <= j < v.len() && entry_views(v@)[j].0 == key@;
            assert(v@[j].0@ != key@);
        }
    }
    None
}

/// A copy of a list of strings.
pub fn copy_strings(v: &Vec<String>) -> (r: Vec<String>)
    ensures
        r@ == v@,
{
    let r = v.clone();
    proof {
        assert forall|i: int| 0 <= i < v.len() implies r@[i] == v@[i] by {
            assert(vstd::pervasive::cloned::<String>(v[i], r[i]));
        }
        assert(r@ =~= v@);
    }
    r
}

/// The position of `s` in `v`, if it occurs there.
pub fn find_string(v: &Vec<String>, s: &String) -> (r: Option<usize>)
    ensures
        match r {
            Some(i) => i < v.len() && v@[i as int]@ == s@,
            None => forall|j: int| 0 <= j < v.len() ==> v@[j]@ != s@,
        },
{
    let mut i: usize = 0;
    while i < v.len()
        invariant
            i <= v.len(),
            forall|j: int| 0 <= j < i ==> #[trigger] v@[j]@ != s@,
        decreases v.len() - i,
    {
        if v[i] == *s {
            return Some(i);
        }
        i = i + 1;
    }
    None
}

impl Contract {
    /// Replacing the record of a token by a well-formed one with the same
    /// owner keeps the ledger well formed.
    pub proof fn lemma_record_replaced(before: &Contract, after: &Contract, tid: Seq<char>, tv: TokenView)
        requires
            before.wf(),
            before.tokens().contains_key(tid),
            after.same_but_records(before),
            after.tokens() == before.tokens().insert(tid, tv),
            tv.owner_id == before.tokens()[tid].owner_id,
            tv.wf(),
        ensures
            after.wf(),
            after.keeps_catalog_of(before),
    {
        assert(after.tokens().dom() == after.tokens_by_id@.dom());
        assert(before.tokens().dom() == before.tokens_by_id@.dom());
        assert(after.tokens_by_id@.dom() =~= before.tokens_by_id@.dom());
        assert forall|a: Seq<char>| after.tokens_of(a) == before.tokens_of(a) by {
            assert(after.tokens_of(a) =~= before.tokens_of(a));
        }
    }

    /// Handing a token to a new owner, in its record and in the index at
    /// once, keeps the ledger well formed.
    pub proof fn lemma_owner_moved(before: &Contract, after: &Contract, tid: Seq<char>, tv: TokenView)
        requires
            before.wf(),
            before.tokens().contains_key(tid),
            after.same_catalog_fields(before),
            after.index_lists_wf(),
            after.tokens() == before.tokens().insert(tid, tv),
            forall|a: Seq<char>|
                #[trigger] after.tokens_of(a) == if a == tv.owner_id {
                    before.tokens_of(a).remove(tid).insert(tid)
                } else {
                    before.tokens_of(a).remove(tid)
                },
            tv.wf(),
        ensures
            after.wf(),
            after.keeps_catalog_of(before),
    {
        assert(after.tokens().dom() == after.tokens_by_id@.dom());
        assert(before.tokens().dom() == before.tokens_by_id@.dom());
        assert(after.tokens_by_id@.dom() =~= before.tokens_by_id@.dom());
        assert forall|a: Seq<char>, t: Seq<char>| #[trigger]
            after.tokens_of(a).contains(t) implies after.tokens().contains_key(t)
                && after.tokens()[t].owner_id == a by {
            if t != tid {
                assert(before.tokens_of(a).contains(t));
            }
        }
        assert forall|t: Seq<char>| #[trigger]
            after.tokens().contains_key(t) implies after.tokens_of(after.tokens()[t].owner_id).contains(t) by {
            if t != tid {
                assert(before.tokens_of(before.tokens()[t].owner_id).contains(t));
            }
        }
    }

    /// Lists `token_id` among the tokens of `account_id`.
    pub(crate) fn internal_add_token_to_owner(&mut self, account_id: &AccountId, token_id: &TokenId)
        requires
            old(self).index_lists_wf(),
            !old(self).tokens_of(account_id@).contains(token_id@),
        ensures
            final(self).index_lists_wf(),
            final(self).same_but_index(old(self)),
            forall|a: Seq<char>|
                #[trigger] final(self).tokens_of(a) == if a == account_id@ {
                    old(self).tokens_of(a).insert(token_id@)
                } else {
                    old(self).tokens_of(a)
                },
    {
        let mut list: Vec<TokenId> = match self.tokens_per_owner.get(account_id.as_str()) {
            Some(l) => copy_strings(l),
            None => Vec::new(),
        };
        let ghost before = list@;
        list.push(token_id.clone());
        let ghost old_self = *self;
        self.tokens_per_owner.insert(account_id.clone(), list);
        proof {
            assert(views_distinct(list@)) by {
                if old_self.tokens_per_owner@.contains_key(account_id@) {
                    assert forall|j: int| 0 <= j < before.len() implies before[j]@ != token_id@ by {
                        if before[j]@ == token_id@ {
                            assert(old_self.tokens_of(account_id@).contains(token_id@));
                        }
                    }
                }
            }
            assert forall|a: Seq<char>| #[trigger] self.tokens_of(a) == if a == account_id@ {
                old_self.tokens_of(a).insert(token_id@)
            } else {
                old_self.tokens_of(a)
            } by {
                if a == account_id@ {
                    assert forall|t: Seq<char>| self.tokens_of(a).contains(t) == old_self.tokens_of(a).insert(token_id@).contains(t) by {
                        if old_self.tokens_of(a).contains(t) {
                            let j = choose|j: int| 0 <= j < old_self.tokens_per_owner@[a].len()
                                && #[trigger] old_self.tokens_per_owner@[a]@[j]@ == t;
                            assert(self.tokens_per_owner@[a]@[j]@ == t);
                        }
                        if t == token_id@ {
                            assert(self.tokens_per_owner@[a]@[before.len() as int]@ == t);
                        }
                        if self.tokens_of(a).contains(t) && t != token_id@ {
                            let j = choose|j: int| 0 <= j < self.tokens_per_owner@[a].len()
                                && #[trigger] self.tokens_per_owner@[a]@[j]@ == t;
                            assert(j < before.len());
                            assert(old_self.tokens_per_owner@[a]@[j]@ == t);
                        }
                    }
                    assert(self.tokens_of(a) =~= old_self.tokens_of(a).insert(token_id@));
                } else {
                    assert(self.tokens_of(a) =~= old_self.tokens_of(a));
                }
            }
        }
    }

    /// Takes `token_id` off the tokens of `account_id`; an account left
    /// with no tokens leaves the index.
    pub(crate) fn internal_remove_token_from_owner(&mut self, account_id: &AccountId, token_id: &TokenId)
        requires
            old(self).index_lists_wf(),
            old(self).tokens_of(account_id@).contains(token_id@),
        ensures
            final(self).index_lists_wf(),
            final(self).same_but_index(old(self)),
            forall|a: Seq<char>|
                #[trigger] final(self).tokens_of(a) == if a == account_id@ {
                    old(self).tokens_of(a).remove(token_id@)
                } else {
                    old(self).tokens_of(a)
                },
    {
        let ghost old_self = *self;
        let mut list: Vec<TokenId> = match self.tokens_per_owner.get(account_id.as_str()) {
            Some(l) => copy_strings(l),
            None => Vec::new(),
        };
        let ghost before = list@;
        match find_string(&list, token_id) {
            Some(i) => {
                list.remove(i);
                proof {
                    assert forall|t: Seq<char>| (exists|j: int| 0 <= j < list.len() && #[trigger] list@[j]@ == t)
                        == old_self.tokens_of(account_id@).remove(token_id@).contains(t) by {
                        if exists|j: int| 0 <= j < list.len() && #[trigger] list@[j]@ == t {
                            let j = choose|j: int| 0 <= j < list.len() && #[trigger] list@[j]@ == t;
                            if j < i {
                                assert(before[j]@ == t);
                                assert(before[j]@ != before[i as int]@);
                            } else {
                                assert(before[j + 1]@ == t);
                                assert(before[i as int]@ != before[j + 1]@);
                            }
                        }
                        if old_self.tokens_of(account_id@).remove(token_id@).contains(t) {
                            let j = choose|j: int| 0 <= j < before.len() && #[trigger] before[j]@ == t;
                            if j < i {
                                assert(list@[j]@ == t);
                            } else {
                                assert(j != i);
                                assert(list@[j - 1]@ == t);
                            }
                        }
                    }
                }
                if list.len() == 0 {
                    self.tokens_per_owner.remove(account_id.as_str());
                } else {
                    self.tokens_per_owner.insert(account_id.clone(), list);
                }
                proof {
                    assert forall|a: Seq<char>| #[trigger] self.tokens_of(a) == if a == account_id@ {
                        old_self.tokens_of(a).remove(token_id@)
                    } else {
                        old_self.tokens_of(a)
                    } by {
                        if a == account_id@ {
                            assert(self.tokens_of(a) =~= old_self.tokens_of(a).remove(token_id@));
                        } else {
                            assert(self.tokens_of(a) =~= old_self.tokens_of(a));
                        }
                    }
                }
            },
            None => {
                proof {
                    let j = choose|j: int| 0 <= j < before.len() && #[trigger] before[j]@ == token_id@;
                    assert(list@[j]@ != token_id@);
                }
            },
        }
    }
}

} // verus!
