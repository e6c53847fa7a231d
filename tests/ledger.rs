use nft_contract::approval::NonFungibleTokenCore as Approvals;
use nft_contract::nft_core::NonFungibleTokenCore as Transfers;
use nft_contract::storage::{bill, bytes_for_approved_account_id};
use nft_contract::{
    CallContext, Contract, EventLogVariant, NFTContractMetadata, NftError,
    NonFungibleTokenMetadata, PromiseResult, TokenMetadata,
};

const PRICE: u128 = 10_000_000_000_000_000_000;

fn ctx(who: &str, deposit: u128) -> CallContext {
    CallContext {
        predecessor_id: who.to_string(),
        attached_deposit: deposit,
        storage_byte_cost: PRICE,
    }
}

fn meta(title: &str) -> TokenMetadata {
    TokenMetadata {
        title: Some(title.to_string()),
        description: None,
        media: None,
        media_hash: None,
        copies: Some(1),
        issued_at: None,
        expires_at: None,
        starts_at: None,
        updated_at: None,
        extra: None,
        reference: None,
        reference_hash: None,
    }
}

fn ledger_with_t1() -> Contract {
    let mut c = Contract::new_default_meta("owner.near".to_string());
    c.nft_mint("t1".to_string(), meta("one"), "alice".to_string(), None).unwrap();
    c
}

fn owner_of(c: &Contract, token: &str) -> String {
    c.nft_token(token.to_string()).unwrap().owner_id
}

fn approvals_of(c: &Contract, token: &str) -> Vec<(String, u64)> {
    c.nft_token(token.to_string()).unwrap().approved_account_ids
}

fn ids_of(c: &Contract, account: &str) -> Vec<String> {
    c.nft_tokens_for_owner(account.to_string(), None, None)
        .into_iter()
        .map(|t| t.token_id)
        .collect()
}

#[test]
fn approval_storage_is_length_plus_twelve() {
    assert_eq!(bytes_for_approved_account_id(&"bob".to_string()), 15);
    assert_eq!(bytes_for_approved_account_id(&"é".to_string()), 14);
}

#[test]
fn bill_returns_surplus_or_fails() {
    let c = CallContext { predecessor_id: "alice".to_string(), attached_deposit: 100, storage_byte_cost: 10 };
    let p = bill(&c, 3).unwrap().unwrap();
    assert_eq!(p.receiver_id, "alice");
    assert_eq!(p.amount, 70);
    assert!(bill(&c, 10).unwrap().is_none());
    assert_eq!(bill(&c, 11).err(), Some(NftError::InsufficientPayment));
    let big = CallContext { predecessor_id: "a".to_string(), attached_deposit: u128::MAX, storage_byte_cost: u128::MAX };
    assert_eq!(bill(&big, 2).err(), Some(NftError::InsufficientPayment));
}

#[test]
fn mint_indexes_the_owner() {
    let c = ledger_with_t1();
    assert_eq!(owner_of(&c, "t1"), "alice");
    assert_eq!(ids_of(&c, "alice"), vec!["t1".to_string()]);
    assert_eq!(c.nft_supply_for_owner("alice".to_string()), 1);
    assert_eq!(c.nft_supply_for_owner("bob".to_string()), 0);
    assert_eq!(c.nft_total_supply(), 1);
    let t = c.nft_token("t1".to_string()).unwrap();
    assert_eq!(t.metadata.title, Some("one".to_string()));
    assert!(t.approved_account_ids.is_empty());
    assert!(c.nft_token("t2".to_string()).is_none());
}

#[test]
fn mint_twice_is_refused() {
    let mut c = ledger_with_t1();
    let r = c.nft_mint("t1".to_string(), meta("again"), "bob".to_string(), None);
    assert_eq!(r.err(), Some(NftError::TokenExists));
    assert_eq!(owner_of(&c, "t1"), "alice");
}

#[test]
fn mint_caps_royalty_splits() {
    let mut c = Contract::new_default_meta("owner.near".to_string());
    let seven: Vec<(String, u32)> = (0..7).map(|i| (format!("r{}", i), 100)).collect();
    let r = c.nft_mint("t".to_string(), meta("t"), "alice".to_string(), Some(seven));
    assert_eq!(r.err(), Some(NftError::TooManyRoyaltySplits));
    assert_eq!(c.nft_total_supply(), 0);
    let six: Vec<(String, u32)> = (0..6).map(|i| (format!("r{}", i), 100)).collect();
    let log = c.nft_mint("t".to_string(), meta("t"), "alice".to_string(), Some(six)).unwrap();
    assert_eq!(
        log.to_string(),
        r#"EVENT_JSON:{"standard":"nep171","version":"1.0.0","event":"nft_mint","data":[{"owner_id":"alice","token_ids":["t"]}]}"#
    );
    assert_eq!(c.nft_token("t".to_string()).unwrap().royalty.len(), 6);
}

#[test]
fn grant_issues_ids_and_bills_storage() {
    let mut c = ledger_with_t1();
    let deposit = 100 * PRICE;
    let out = c
        .nft_approve(&ctx("alice", deposit), "t1".to_string(), "bob".to_string(), Some("hi".to_string()))
        .unwrap();
    assert_eq!(out.approval_id, 0);
    let refund = out.refund.unwrap();
    assert_eq!(refund.receiver_id, "alice");
    assert_eq!(refund.amount, deposit - 15 * PRICE);
    let notice = out.notice.unwrap();
    assert_eq!(notice.account_id, "bob");
    assert_eq!(notice.owner_id, "alice");
    assert_eq!(notice.token_id, "t1");
    assert_eq!(notice.approval_id, 0);
    assert_eq!(notice.msg, "hi");
    let out2 = c.nft_approve(&ctx("alice", deposit), "t1".to_string(), "carol".to_string(), None).unwrap();
    assert_eq!(out2.approval_id, 1);
    assert!(out2.notice.is_none());
    assert_eq!(approvals_of(&c, "t1"), vec![("bob".to_string(), 0), ("carol".to_string(), 1)]);
}

#[test]
fn regrant_charges_once_and_keeps_counter() {
    let mut c = ledger_with_t1();
    let exact = 15 * PRICE;
    let first = c.nft_approve(&ctx("alice", exact), "t1".to_string(), "bob".to_string(), None).unwrap();
    assert_eq!(first.approval_id, 0);
    assert!(first.refund.is_none());
    let second = c.nft_approve(&ctx("alice", exact), "t1".to_string(), "bob".to_string(), None).unwrap();
    assert_eq!(second.approval_id, 0);
    assert_eq!(second.refund.unwrap().amount, exact);
    assert_eq!(approvals_of(&c, "t1"), vec![("bob".to_string(), 0)]);
    let third = c.nft_approve(&ctx("alice", 16 * PRICE), "t1".to_string(), "dave".to_string(), None).unwrap();
    assert_eq!(third.approval_id, 1);
}

#[test]
fn grant_errors() {
    let mut c = ledger_with_t1();
    let r = c.nft_approve(&ctx("alice", 0), "t1".to_string(), "bob".to_string(), None);
    assert_eq!(r.err(), Some(NftError::InsufficientPayment));
    let r = c.nft_approve(&ctx("alice", 1), "nope".to_string(), "bob".to_string(), None);
    assert_eq!(r.err(), Some(NftError::NotFound));
    let r = c.nft_approve(&ctx("mallory", 100 * PRICE), "t1".to_string(), "bob".to_string(), None);
    assert_eq!(r.err(), Some(NftError::Unauthorized));
    let r = c.nft_approve(&ctx("alice", 15 * PRICE - 1), "t1".to_string(), "bob".to_string(), None);
    assert_eq!(r.err(), Some(NftError::InsufficientPayment));
    assert!(approvals_of(&c, "t1").is_empty());
}

#[test]
fn is_approved_checks_grant_id() {
    let mut c = ledger_with_t1();
    c.nft_approve(&ctx("alice", PRICE * 100), "t1".to_string(), "bob".to_string(), None).unwrap();
    assert_eq!(c.nft_is_approved("t1".to_string(), "bob".to_string(), None), Ok(true));
    assert_eq!(c.nft_is_approved("t1".to_string(), "bob".to_string(), Some(0)), Ok(true));
    assert_eq!(c.nft_is_approved("t1".to_string(), "bob".to_string(), Some(1)), Ok(false));
    assert_eq!(c.nft_is_approved("t1".to_string(), "carol".to_string(), None), Ok(false));
    assert_eq!(
        c.nft_is_approved("t9".to_string(), "bob".to_string(), None),
        Err(NftError::NotFound)
    );
}

#[test]
fn revoked_grant_id_is_never_reissued() {
    let mut c = ledger_with_t1();
    c.nft_approve(&ctx("alice", PRICE * 100), "t1".to_string(), "bob".to_string(), None).unwrap();
    let refund = c.nft_revoke(&ctx("alice", 1), "t1".to_string(), "bob".to_string()).unwrap().unwrap();
    assert_eq!(refund.receiver_id, "alice");
    assert_eq!(refund.amount, 15 * PRICE);
    assert_eq!(c.nft_is_approved("t1".to_string(), "bob".to_string(), None), Ok(false));
    let again = c.nft_approve(&ctx("alice", PRICE * 100), "t1".to_string(), "bob".to_string(), None).unwrap();
    assert_eq!(again.approval_id, 1);
    assert_eq!(c.nft_is_approved("t1".to_string(), "bob".to_string(), Some(0)), Ok(false));
    assert_eq!(c.nft_is_approved("t1".to_string(), "bob".to_string(), Some(1)), Ok(true));
}

#[test]
fn revoke_of_unapproved_needs_payment_and_changes_nothing() {
    let mut c = ledger_with_t1();
    c.nft_approve(&ctx("alice", PRICE * 100), "t1".to_string(), "bob".to_string(), None).unwrap();
    let r = c.nft_revoke(&ctx("alice", 1), "t1".to_string(), "zed".to_string());
    assert!(r.unwrap().is_none());
    assert_eq!(approvals_of(&c, "t1"), vec![("bob".to_string(), 0)]);
    let r = c.nft_revoke(&ctx("alice", 0), "t1".to_string(), "zed".to_string());
    assert_eq!(r.err(), Some(NftError::InsufficientPayment));
    let r = c.nft_revoke(&ctx("alice", 2), "t1".to_string(), "bob".to_string());
    assert_eq!(r.err(), Some(NftError::InsufficientPayment));
    let r = c.nft_revoke(&ctx("bob", 1), "t1".to_string(), "bob".to_string());
    assert_eq!(r.err(), Some(NftError::Unauthorized));
    let r = c.nft_revoke(&ctx("alice", 1), "t7".to_string(), "bob".to_string());
    assert_eq!(r.err(), Some(NftError::NotFound));
    assert_eq!(approvals_of(&c, "t1"), vec![("bob".to_string(), 0)]);
}

#[test]
fn revoke_all_refunds_every_approval_once() {
    let mut c = ledger_with_t1();
    for who in ["bob", "carol", "dave"] {
        c.nft_approve(&ctx("alice", PRICE * 100), "t1".to_string(), who.to_string(), None).unwrap();
    }
    let refund = c.nft_revoke_all(&ctx("alice", 1), "t1".to_string()).unwrap().unwrap();
    assert_eq!(refund.receiver_id, "alice");
    assert_eq!(refund.amount, (15 + 17 + 16) * PRICE);
    for who in ["bob", "carol", "dave"] {
        assert_eq!(c.nft_is_approved("t1".to_string(), who.to_string(), None), Ok(false));
    }
    assert!(approvals_of(&c, "t1").is_empty());
    let again = c.nft_revoke_all(&ctx("alice", 1), "t1".to_string()).unwrap();
    assert!(again.is_none());
    assert!(approvals_of(&c, "t1").is_empty());
    let r = c.nft_revoke_all(&ctx("alice", 0), "t1".to_string());
    assert_eq!(r.err(), Some(NftError::InsufficientPayment));
}

#[test]
fn direct_transfer_by_owner() {
    let mut c = ledger_with_t1();
    c.nft_approve(&ctx("alice", PRICE * 100), "t1".to_string(), "bob".to_string(), None).unwrap();
    let out = c
        .nft_transfer(&ctx("alice", 1), "carol".to_string(), "t1".to_string(), None, Some("gift".to_string()))
        .unwrap();
    assert_eq!(out.refund.receiver_id, "alice");
    assert_eq!(out.refund.amount, 15 * PRICE);
    assert_eq!(
        out.log.to_string(),
        r#"EVENT_JSON:{"standard":"nep171","version":"1.0.0","event":"nft_transfer","data":[{"old_owner_id":"alice","new_owner_id":"carol","token_ids":["t1"],"memo":"gift"}]}"#
    );
    assert_eq!(owner_of(&c, "t1"), "carol");
    assert!(approvals_of(&c, "t1").is_empty());
    assert!(ids_of(&c, "alice").is_empty());
    assert_eq!(ids_of(&c, "carol"), vec!["t1".to_string()]);
    let next = c.nft_approve(&ctx("carol", PRICE * 100), "t1".to_string(), "bob".to_string(), None).unwrap();
    assert_eq!(next.approval_id, 1);
}

#[test]
fn direct_transfer_by_approved_account() {
    let mut c = ledger_with_t1();
    c.nft_approve(&ctx("alice", PRICE * 100), "t1".to_string(), "bob".to_string(), None).unwrap();
    let out = c.nft_transfer(&ctx("bob", 1), "carol".to_string(), "t1".to_string(), Some(0), None).unwrap();
    match &out.log.event {
        EventLogVariant::NftTransfer(v) => {
            assert_eq!(v[0].authorized_id, Some("bob".to_string()));
            assert_eq!(v[0].old_owner_id, "alice");
            assert_eq!(v[0].new_owner_id, "carol");
        }
        _ => panic!("expected a transfer record"),
    }
    assert_eq!(owner_of(&c, "t1"), "carol");
}

#[test]
fn transfer_by_stranger_is_unauthorized() {
    let mut c = ledger_with_t1();
    c.nft_approve(&ctx("alice", PRICE * 100), "t1".to_string(), "bob".to_string(), None).unwrap();
    let r = c.nft_transfer(&ctx("mallory", 1), "mallory".to_string(), "t1".to_string(), None, None);
    assert_eq!(r.err(), Some(NftError::Unauthorized));
    assert_eq!(owner_of(&c, "t1"), "alice");
    assert_eq!(ids_of(&c, "alice"), vec!["t1".to_string()]);
    assert!(ids_of(&c, "mallory").is_empty());
    assert_eq!(approvals_of(&c, "t1"), vec![("bob".to_string(), 0)]);
}

#[test]
fn transfer_with_stale_grant_id_is_refused() {
    let mut c = ledger_with_t1();
    c.nft_approve(&ctx("alice", PRICE * 100), "t1".to_string(), "bob".to_string(), None).unwrap();
    c.nft_revoke(&ctx("alice", 1), "t1".to_string(), "bob".to_string()).unwrap();
    c.nft_approve(&ctx("alice", PRICE * 100), "t1".to_string(), "bob".to_string(), None).unwrap();
    let r = c.nft_transfer(&ctx("bob", 1), "carol".to_string(), "t1".to_string(), Some(0), None);
    assert_eq!(r.err(), Some(NftError::StaleGrant));
    assert_eq!(owner_of(&c, "t1"), "alice");
    assert_eq!(approvals_of(&c, "t1"), vec![("bob".to_string(), 1)]);
    let r = c.nft_transfer_call(&ctx("bob", 1), "carol".to_string(), "t1".to_string(), Some(7), None, "m".to_string());
    assert_eq!(r.err(), Some(NftError::StaleGrant));
}

#[test]
fn transfer_errors() {
    let mut c = ledger_with_t1();
    let r = c.nft_transfer(&ctx("alice", 1), "alice".to_string(), "t1".to_string(), None, None);
    assert_eq!(r.err(), Some(NftError::SelfTransfer));
    let r = c.nft_transfer(&ctx("alice", 1), "bob".to_string(), "t2".to_string(), None, None);
    assert_eq!(r.err(), Some(NftError::NotFound));
    let r = c.nft_transfer(&ctx("alice", 0), "bob".to_string(), "t1".to_string(), None, None);
    assert_eq!(r.err(), Some(NftError::InsufficientPayment));
    let r = c.nft_transfer_call(&ctx("alice", 2), "bob".to_string(), "t1".to_string(), None, None, "m".to_string());
    assert_eq!(r.err(), Some(NftError::InsufficientPayment));
    assert_eq!(owner_of(&c, "t1"), "alice");
}

fn scenario_to_carol() -> (Contract, nft_contract::PendingResolution) {
    let mut c = ledger_with_t1();
    let g = c.nft_approve(&ctx("alice", PRICE * 100), "t1".to_string(), "bob".to_string(), None).unwrap();
    assert_eq!(g.approval_id, 0);
    let out = c
        .nft_transfer_call(&ctx("bob", 1), "carol".to_string(), "t1".to_string(), Some(0), None, "hello".to_string())
        .unwrap();
    assert_eq!(out.notice.receiver_id, "carol");
    assert_eq!(out.notice.sender_id, "bob");
    assert_eq!(out.notice.previous_owner_id, "alice");
    assert_eq!(out.notice.token_id, "t1");
    assert_eq!(out.notice.msg, "hello");
    assert_eq!(out.resolution.authorized_id, Some("bob".to_string()));
    assert_eq!(out.resolution.approved_account_ids, vec![("bob".to_string(), 0)]);
    assert_eq!(owner_of(&c, "t1"), "carol");
    assert!(approvals_of(&c, "t1").is_empty());
    (c, out.resolution)
}

fn resolve(c: &mut Contract, p: nft_contract::PendingResolution, result: PromiseResult) -> nft_contract::ResolveOutcome {
    c.nft_resolve_transfer(
        PRICE,
        p.authorized_id,
        p.owner_id,
        p.receiver_id,
        p.token_id,
        p.approved_account_ids,
        p.memo,
        result,
    )
}

#[test]
fn notified_transfer_kept() {
    let (mut c, p) = scenario_to_carol();
    let out = resolve(&mut c, p, PromiseResult::Successful(b"false".to_vec()));
    assert!(!out.reverted);
    assert_eq!(out.refund.receiver_id, "alice");
    assert_eq!(out.refund.amount, 15 * PRICE);
    assert!(out.log.is_none());
    assert_eq!(owner_of(&c, "t1"), "carol");
    assert!(approvals_of(&c, "t1").is_empty());
    assert_eq!(ids_of(&c, "carol"), vec!["t1".to_string()]);
}

#[test]
fn notified_transfer_kept_with_whitespace_payload() {
    let (mut c, p) = scenario_to_carol();
    let out = resolve(&mut c, p, PromiseResult::Successful(b" false\n".to_vec()));
    assert!(!out.reverted);
    assert_eq!(owner_of(&c, "t1"), "carol");
}

#[test]
fn notified_transfer_reverted_on_true() {
    let (mut c, p) = scenario_to_carol();
    let out = resolve(&mut c, p, PromiseResult::Successful(b"true".to_vec()));
    assert!(out.reverted);
    assert_eq!(owner_of(&c, "t1"), "alice");
    assert!(ids_of(&c, "carol").is_empty());
    assert_eq!(ids_of(&c, "alice"), vec!["t1".to_string()]);
    assert_eq!(approvals_of(&c, "t1"), vec![("bob".to_string(), 0)]);
    assert_eq!(out.refund.receiver_id, "carol");
    assert_eq!(out.refund.amount, 0);
    assert_eq!(
        out.log.unwrap().to_string(),
        r#"EVENT_JSON:{"standard":"nep171","version":"1.0.0","event":"nft_transfer","data":[{"authorized_id":"bob","old_owner_id":"carol","new_owner_id":"alice","token_ids":["t1"]}]}"#
    );
    let g = c.nft_approve(&ctx("alice", PRICE * 100), "t1".to_string(), "dave".to_string(), None).unwrap();
    assert_eq!(g.approval_id, 1);
}

#[test]
fn notified_transfer_reverted_on_failure() {
    let (mut c, p) = scenario_to_carol();
    let out = resolve(&mut c, p, PromiseResult::Failed);
    assert!(out.reverted);
    assert_eq!(owner_of(&c, "t1"), "alice");
    assert!(ids_of(&c, "carol").is_empty());
}

#[test]
fn notified_transfer_reverted_on_unreadable_payload() {
    let (mut c, p) = scenario_to_carol();
    let out = resolve(&mut c, p, PromiseResult::Successful(b"maybe".to_vec()));
    assert!(out.reverted);
    assert_eq!(owner_of(&c, "t1"), "alice");
}

#[test]
fn revert_refunds_receivers_own_approvals() {
    let (mut c, p) = scenario_to_carol();
    c.nft_approve(&ctx("carol", PRICE * 100), "t1".to_string(), "erin".to_string(), None).unwrap();
    let out = resolve(&mut c, p, PromiseResult::Successful(b"true".to_vec()));
    assert!(out.reverted);
    assert_eq!(out.refund.receiver_id, "carol");
    assert_eq!(out.refund.amount, 16 * PRICE);
    assert_eq!(approvals_of(&c, "t1"), vec![("bob".to_string(), 0)]);
    let g = c.nft_approve(&ctx("alice", PRICE * 100), "t1".to_string(), "frank".to_string(), None).unwrap();
    assert_eq!(g.approval_id, 2);
}

#[test]
fn no_revert_once_token_moved_on() {
    let (mut c, p) = scenario_to_carol();
    c.nft_transfer(&ctx("carol", 1), "dave".to_string(), "t1".to_string(), None, None).unwrap();
    let out = resolve(&mut c, p, PromiseResult::Successful(b"true".to_vec()));
    assert!(!out.reverted);
    assert_eq!(out.refund.receiver_id, "alice");
    assert_eq!(out.refund.amount, 15 * PRICE);
    assert_eq!(owner_of(&c, "t1"), "dave");
}

#[test]
fn resolve_answer_directly() {
    let (mut c, p) = scenario_to_carol();
    let out = c.resolve_transfer_answer(
        PRICE,
        p.authorized_id,
        p.owner_id,
        p.receiver_id,
        p.token_id,
        p.approved_account_ids,
        p.memo,
        None,
    );
    assert!(out.reverted);
    assert_eq!(owner_of(&c, "t1"), "alice");
}

#[test]
fn snapshot_validity() {
    assert!(nft_contract::nft_core::is_valid_snapshot(&vec![("a".to_string(), 0), ("b".to_string(), 5)]));
    assert!(!nft_contract::nft_core::is_valid_snapshot(&vec![("a".to_string(), 0), ("a".to_string(), 5)]));
    assert!(!nft_contract::nft_core::is_valid_snapshot(&vec![("a".to_string(), u64::MAX)]));
    assert!(nft_contract::nft_core::is_valid_snapshot(&vec![]));
}

#[test]
fn pages_of_tokens() {
    let mut c = Contract::new_default_meta("owner.near".to_string());
    for i in 0..5 {
        c.nft_mint(format!("t{}", i), meta("m"), "alice".to_string(), None).unwrap();
    }
    c.nft_mint("x".to_string(), meta("m"), "bob".to_string(), None).unwrap();
    assert_eq!(c.nft_total_supply(), 6);
    let ids: Vec<String> = c.nft_tokens(Some(1), Some(3)).into_iter().map(|t| t.token_id).collect();
    assert_eq!(ids, vec!["t1".to_string(), "t2".to_string(), "t3".to_string()]);
    assert_eq!(c.nft_tokens(None, None).len(), 6);
    assert!(c.nft_tokens(Some(6), None).is_empty());
    assert!(c.nft_tokens(Some(u128::MAX), Some(3)).is_empty());
    assert_eq!(c.nft_supply_for_owner("alice".to_string()), 5);
    let mine: Vec<String> = c
        .nft_tokens_for_owner("alice".to_string(), Some(3), Some(10))
        .into_iter()
        .map(|t| t.token_id)
        .collect();
    assert_eq!(mine, vec!["t3".to_string(), "t4".to_string()]);
    assert!(c.nft_tokens_for_owner("nobody".to_string(), None, None).is_empty());
}

#[test]
fn default_contract_metadata() {
    let c = Contract::new_default_meta("owner.near".to_string());
    let m = c.nft_metadata();
    assert_eq!(m.spec, "nft-1.0.0");
    assert_eq!(m.name, "NFT Tutorial Contract");
    assert_eq!(m.symbol, "Linktown-portfolio");
    let custom = Contract::new(
        "o".to_string(),
        NFTContractMetadata {
            spec: "s".to_string(),
            name: "n".to_string(),
            symbol: "y".to_string(),
            icon: None,
            base_uri: Some("b".to_string()),
            reference: None,
            reference_hash: None,
        },
    );
    assert_eq!(custom.nft_metadata().base_uri, Some("b".to_string()));
}
