//! Per-operation behavior: authentication, validation, errors, queries.

use blockchain_junction::auth::is_authenticated;
use blockchain_junction::swap::init_storage;
use blockchain_junction::types::{
    Chain, Identity, SwapError, SwapResponse, SwapStatus,
};

const HOUR_NANOS: u64 = 3_600_000_000_000;

fn ident(tag: u8) -> Identity {
    Identity { bytes: vec![tag] }
}

#[test]
fn anonymous_caller_is_rejected_without_touching_state() {
    let mut engine = init_storage();
    let anon = Identity::anonymous();
    assert!(!is_authenticated(&anon));
    assert!(is_authenticated(&ident(1)));
    assert_eq!(
        engine.deposit_asset(&anon, &"ICP".to_string(), 5),
        Err(SwapError::Unauthenticated)
    );
    assert_eq!(
        engine.withdraw_asset(&anon, &"ICP".to_string(), 5, Chain::ICP, &"a".to_string()),
        Err(SwapError::Unauthenticated)
    );
    assert_eq!(
        engine.create_swap_request(
            &anon,
            &"ICP".to_string(),
            Chain::ICP,
            5,
            &"BTC".to_string(),
            Chain::Bitcoin,
            HOUR_NANOS,
            0,
        ),
        Err(SwapError::Unauthenticated)
    );
    assert_eq!(
        engine.cancel_swap_request(1, &anon),
        Err(SwapError::Unauthenticated)
    );
    assert_eq!(engine.get_balance(&anon, &"ICP".to_string()), 0);
    assert!(engine.get_pending_swaps().is_empty());
}

#[test]
fn create_rejects_zero_amount_and_zero_duration() {
    let mut engine = init_storage();
    let x = ident(1);
    engine
        .deposit_asset(&x, &"ICP".to_string(), 10)
        .expect("deposit");
    assert_eq!(
        engine.create_swap_request(
            &x,
            &"ICP".to_string(),
            Chain::ICP,
            0,
            &"BTC".to_string(),
            Chain::Bitcoin,
            HOUR_NANOS,
            0,
        ),
        Err(SwapError::InvalidInput)
    );
    assert_eq!(
        engine.create_swap_request(
            &x,
            &"ICP".to_string(),
            Chain::ICP,
            5,
            &"BTC".to_string(),
            Chain::Bitcoin,
            0,
            0,
        ),
        Err(SwapError::InvalidInput)
    );
    assert_eq!(engine.get_balance(&x, &"ICP".to_string()), 10);
}

#[test]
fn create_rejects_deadline_past_the_timestamp_range() {
    let mut engine = init_storage();
    let x = ident(1);
    engine
        .deposit_asset(&x, &"ICP".to_string(), 10)
        .expect("deposit");
    let r = engine.create_swap_request(
        &x,
        &"ICP".to_string(),
        Chain::ICP,
        5,
        &"BTC".to_string(),
        Chain::Bitcoin,
        u64::MAX,
        2,
    );
    assert_eq!(r, Err(SwapError::Overflow));
    assert_eq!(engine.get_balance(&x, &"ICP".to_string()), 10);
    assert!(engine.get_pending_swaps().is_empty());
}

#[test]
fn deposit_overflow_is_reported_not_saturated() {
    let mut engine = init_storage();
    let x = ident(1);
    engine
        .deposit_asset(&x, &"ICP".to_string(), u64::MAX)
        .expect("deposit to the limit");
    assert_eq!(
        engine.deposit_asset(&x, &"ICP".to_string(), 1),
        Err(SwapError::Overflow)
    );
    assert_eq!(engine.get_balance(&x, &"ICP".to_string()), u64::MAX);
}

#[test]
fn withdraw_needs_funds_and_debits_exactly() {
    let mut engine = init_storage();
    let x = ident(1);
    engine
        .deposit_asset(&x, &"BTC".to_string(), 10)
        .expect("deposit");
    assert_eq!(
        engine.withdraw_asset(&x, &"BTC".to_string(), 11, Chain::Bitcoin, &"addr".to_string()),
        Err(SwapError::InsufficientFunds)
    );
    assert_eq!(engine.get_balance(&x, &"BTC".to_string()), 10);
    engine
        .withdraw_asset(&x, &"BTC".to_string(), 10, Chain::Bitcoin, &"addr".to_string())
        .expect("withdrawal");
    assert_eq!(engine.get_balance(&x, &"BTC".to_string()), 0);
}

#[test]
fn cancel_refunds_owner_and_retires_the_request() {
    let mut engine = init_storage();
    let x = ident(1);
    engine
        .deposit_asset(&x, &"ICP".to_string(), 100)
        .expect("deposit");
    engine
        .create_swap_request(
            &x,
            &"ICP".to_string(),
            Chain::ICP,
            40,
            &"BTC".to_string(),
            Chain::Bitcoin,
            HOUR_NANOS,
            0,
        )
        .expect("request");
    assert_eq!(engine.get_balance(&x, &"ICP".to_string()), 60);
    engine.cancel_swap_request(1, &x).expect("cancellation");
    assert_eq!(engine.get_balance(&x, &"ICP".to_string()), 100);
    assert!(engine.get_pending_swaps().is_empty());
    assert_eq!(engine.get_swap_request(1).unwrap().status, SwapStatus::Cancelled);
    // Terminal records admit no further transition.
    assert_eq!(
        engine.cancel_swap_request(1, &x),
        Err(SwapError::AlreadyProcessed)
    );
    assert_eq!(engine.get_balance(&x, &"ICP".to_string()), 100);
}

#[test]
fn cancel_by_non_owner_is_unauthorized() {
    let mut engine = init_storage();
    let x = ident(1);
    let y = ident(2);
    engine
        .deposit_asset(&x, &"ICP".to_string(), 100)
        .expect("deposit");
    engine
        .create_swap_request(
            &x,
            &"ICP".to_string(),
            Chain::ICP,
            40,
            &"BTC".to_string(),
            Chain::Bitcoin,
            HOUR_NANOS,
            0,
        )
        .expect("request");
    assert_eq!(
        engine.cancel_swap_request(1, &y),
        Err(SwapError::Unauthorized)
    );
    assert_eq!(engine.get_balance(&x, &"ICP".to_string()), 60);
    assert_eq!(engine.get_swap_request(1).unwrap().status, SwapStatus::Pending);
    assert_eq!(engine.cancel_swap_request(7, &y), Err(SwapError::NotFound));
}

#[test]
fn sweep_refunds_expired_request_once() {
    let mut engine = init_storage();
    let x = ident(1);
    engine
        .deposit_asset(&x, &"ICP".to_string(), 100)
        .expect("deposit");
    engine
        .create_swap_request(
            &x,
            &"ICP".to_string(),
            Chain::ICP,
            40,
            &"BTC".to_string(),
            Chain::Bitcoin,
            1_000,
            0,
        )
        .expect("request");
    // Not yet past the deadline: the sweep must not touch it.
    assert_eq!(engine.expire_swap(1, 1_000), Err(SwapError::InvalidInput));
    assert_eq!(engine.get_balance(&x, &"ICP".to_string()), 60);
    // Past the deadline: refunded and marked, exactly once.
    engine.expire_swap(1, 1_001).expect("sweep");
    assert_eq!(engine.get_balance(&x, &"ICP".to_string()), 100);
    assert_eq!(engine.get_swap_request(1).unwrap().status, SwapStatus::Expired);
    assert_eq!(engine.expire_swap(1, 1_001), Err(SwapError::AlreadyProcessed));
    assert_eq!(engine.get_balance(&x, &"ICP".to_string()), 100);
    assert_eq!(engine.expire_swap(9, 1_001), Err(SwapError::NotFound));
}

#[test]
fn execute_rejects_a_request_paired_with_itself() {
    let mut engine = init_storage();
    let x = ident(1);
    engine
        .deposit_asset(&x, &"ICP".to_string(), 100)
        .expect("deposit");
    engine
        .create_swap_request(
            &x,
            &"ICP".to_string(),
            Chain::ICP,
            50,
            &"ICP".to_string(),
            Chain::ICP,
            HOUR_NANOS,
            0,
        )
        .expect("request");
    assert_eq!(engine.execute_swap(1, 1, 10), Err(SwapError::InvalidInput));
    assert_eq!(engine.get_balance(&x, &"ICP".to_string()), 50);
    assert_eq!(engine.get_swap_request(1).unwrap().status, SwapStatus::Pending);
}

#[test]
fn ids_increase_and_are_never_reused() {
    let mut engine = init_storage();
    let x = ident(1);
    let y = ident(2);
    engine
        .deposit_asset(&x, &"ICP".to_string(), 100)
        .expect("deposit for x");
    engine
        .deposit_asset(&y, &"BTC".to_string(), 30)
        .expect("deposit for y");
    let id1 = engine
        .create_swap_request(
            &x,
            &"ICP".to_string(),
            Chain::ICP,
            50,
            &"BTC".to_string(),
            Chain::Bitcoin,
            HOUR_NANOS,
            0,
        )
        .expect("first");
    let id2 = engine
        .create_swap_request(
            &y,
            &"BTC".to_string(),
            Chain::Bitcoin,
            10,
            &"ICP".to_string(),
            Chain::ICP,
            HOUR_NANOS,
            0,
        )
        .expect("second");
    engine.execute_swap(id1, id2, 10).expect("execution");
    // Even though 1 and 2 are gone from the registry, the next id is 3.
    let id3 = engine
        .create_swap_request(
            &y,
            &"BTC".to_string(),
            Chain::Bitcoin,
            10,
            &"ICP".to_string(),
            Chain::ICP,
            HOUR_NANOS,
            0,
        )
        .expect("third");
    assert_eq!((id1, id2, id3), (1, 2, 3));
}

#[test]
fn pending_listing_keeps_insertion_order() {
    let mut engine = init_storage();
    let x = ident(1);
    engine
        .deposit_asset(&x, &"ICP".to_string(), 100)
        .expect("deposit");
    for _ in 0..3 {
        engine
            .create_swap_request(
                &x,
                &"ICP".to_string(),
                Chain::ICP,
                10,
                &"BTC".to_string(),
                Chain::Bitcoin,
                HOUR_NANOS,
                0,
            )
            .expect("request");
    }
    engine.cancel_swap_request(2, &x).expect("cancellation");
    let pending = engine.get_pending_swaps();
    let ids: Vec<u64> = pending.iter().map(|q| q.id).collect();
    assert_eq!(ids, vec![1, 3]);
}

#[test]
fn balance_listing_reports_each_held_symbol() {
    let mut engine = init_storage();
    let x = ident(1);
    let y = ident(2);
    engine
        .deposit_asset(&x, &"ICP".to_string(), 100)
        .expect("first deposit");
    engine
        .deposit_asset(&x, &"BTC".to_string(), 7)
        .expect("second deposit");
    engine
        .deposit_asset(&y, &"ETH".to_string(), 3)
        .expect("other user's deposit");
    let listed = engine.get_all_balances(&x).balances;
    assert_eq!(
        listed,
        vec![("ICP".to_string(), 100), ("BTC".to_string(), 7)]
    );
    assert_eq!(
        engine.get_all_balances(&y).balances,
        vec![("ETH".to_string(), 3)]
    );
}

#[test]
fn responses_carry_result_and_message() {
    let ok = SwapResponse::from_swap_result(&Ok(5));
    assert!(ok.success);
    assert_eq!(ok.swap_id, Some(5));
    assert_eq!(ok.message, "Swap request created successfully");
    let err = SwapResponse::from_swap_result(&Err(SwapError::InsufficientFunds));
    assert!(!err.success);
    assert_eq!(err.swap_id, None);
    assert_eq!(err.message, "Insufficient balance");
    assert_eq!(
        SwapError::Unauthenticated.message(),
        "Authentication required"
    );
    assert_eq!(SwapError::NotFound.message(), "Swap request not found");
}

#[test]
fn zero_balance_entry_is_kept_not_removed() {
    let mut engine = init_storage();
    let x = ident(1);
    engine
        .deposit_asset(&x, &"BTC".to_string(), 4)
        .expect("deposit");
    engine
        .withdraw_asset(&x, &"BTC".to_string(), 4, Chain::Bitcoin, &"addr".to_string())
        .expect("withdrawal");
    assert_eq!(engine.get_balance(&x, &"BTC".to_string()), 0);
    assert_eq!(
        engine.get_all_balances(&x).balances,
        vec![("BTC".to_string(), 0)]
    );
}
