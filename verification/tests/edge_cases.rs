//! Aliasing, overflow and error-precedence corners of the engine.

use blockchain_junction::swap::init_storage;
use blockchain_junction::types::{Chain, Identity, SwapError, SwapStatus};

const HOUR_NANOS: u64 = 3_600_000_000_000;

fn ident(tag: u8) -> Identity {
    Identity { bytes: vec![tag] }
}

#[test]
fn one_owner_on_both_sides_swaps_with_itself() {
    // The same user posts two mirrored requests; both credits land on the
    // same (owner, symbol) pair and the pair settles cleanly.
    let mut engine = init_storage();
    let x = ident(1);
    engine
        .deposit_asset(&x, &"ICP".to_string(), 100)
        .expect("deposit");
    for _ in 0..2 {
        engine
            .create_swap_request(
                &x,
                &"ICP".to_string(),
                Chain::ICP,
                30,
                &"ICP".to_string(),
                Chain::ICP,
                HOUR_NANOS,
                0,
            )
            .expect("request");
    }
    assert_eq!(engine.get_balance(&x, &"ICP".to_string()), 40);
    engine.execute_swap(1, 2, 10).expect("execution");
    // Both escrows returned to the one owner: nothing created or lost.
    assert_eq!(engine.get_balance(&x, &"ICP".to_string()), 100);
    assert!(engine.get_pending_swaps().is_empty());
}

#[test]
fn refund_overflow_on_expiry_withholds_both_refunds() {
    let mut engine = init_storage();
    let x = ident(1);
    let y = ident(2);
    engine
        .deposit_asset(&x, &"ICP".to_string(), 100)
        .expect("deposit for x");
    engine
        .create_swap_request(
            &x,
            &"ICP".to_string(),
            Chain::ICP,
            50,
            &"BTC".to_string(),
            Chain::Bitcoin,
            1_000,
            0,
        )
        .expect("first request");
    engine
        .deposit_asset(&y, &"BTC".to_string(), 10)
        .expect("deposit for y");
    engine
        .create_swap_request(
            &y,
            &"BTC".to_string(),
            Chain::Bitcoin,
            10,
            &"ICP".to_string(),
            Chain::ICP,
            1_000,
            0,
        )
        .expect("second request");
    // Make x's refund impossible: its spendable ICP balance is at the limit.
    engine
        .deposit_asset(&x, &"ICP".to_string(), u64::MAX - 50)
        .expect("fill to the limit");
    let r = engine.execute_swap(1, 2, 2_000);
    assert_eq!(r, Err(SwapError::Overflow));
    // Neither refund happened and both records still wait for a sweep.
    assert_eq!(engine.get_balance(&x, &"ICP".to_string()), u64::MAX);
    assert_eq!(engine.get_balance(&y, &"BTC".to_string()), 0);
    assert_eq!(engine.get_swap_request(1).unwrap().status, SwapStatus::Pending);
    assert_eq!(engine.get_swap_request(2).unwrap().status, SwapStatus::Pending);
    // Each can still be refunded on its own once room exists.
    engine.expire_swap(2, 2_000).expect("sweep of the small one");
    assert_eq!(engine.get_balance(&y, &"BTC".to_string()), 10);
}

#[test]
fn incompatibility_is_decided_before_expiry() {
    // A mismatched pair past its deadline fails as incompatible, without
    // the refund side effect: the requests stay pending for the sweep.
    let mut engine = init_storage();
    let x = ident(1);
    let y = ident(2);
    engine
        .deposit_asset(&x, &"ICP".to_string(), 50)
        .expect("deposit for x");
    engine
        .create_swap_request(
            &x,
            &"ICP".to_string(),
            Chain::ICP,
            50,
            &"BTC".to_string(),
            Chain::Bitcoin,
            1_000,
            0,
        )
        .expect("first request");
    engine
        .deposit_asset(&y, &"ETH".to_string(), 5)
        .expect("deposit for y");
    engine
        .create_swap_request(
            &y,
            &"ETH".to_string(),
            Chain::Ethereum,
            5,
            &"ICP".to_string(),
            Chain::ICP,
            1_000,
            0,
        )
        .expect("second request");
    let r = engine.execute_swap(1, 2, 2_000);
    assert_eq!(r, Err(SwapError::Incompatible));
    assert_eq!(engine.get_swap_request(1).unwrap().status, SwapStatus::Pending);
    assert_eq!(engine.get_swap_request(2).unwrap().status, SwapStatus::Pending);
    assert_eq!(engine.get_balance(&x, &"ICP".to_string()), 0);
    assert_eq!(engine.get_balance(&y, &"ETH".to_string()), 0);
}

#[test]
fn missing_partner_is_reported_before_status_or_expiry() {
    let mut engine = init_storage();
    let x = ident(1);
    engine
        .deposit_asset(&x, &"ICP".to_string(), 50)
        .expect("deposit");
    engine
        .create_swap_request(
            &x,
            &"ICP".to_string(),
            Chain::ICP,
            50,
            &"BTC".to_string(),
            Chain::Bitcoin,
            1_000,
            0,
        )
        .expect("request");
    let r = engine.execute_swap(1, 99, 2_000);
    assert_eq!(r, Err(SwapError::NotFound));
    // No refund side effect without a found pair.
    assert_eq!(engine.get_swap_request(1).unwrap().status, SwapStatus::Pending);
    assert_eq!(engine.get_balance(&x, &"ICP".to_string()), 0);
}

#[test]
fn owner_may_cancel_an_expired_but_unswept_request() {
    let mut engine = init_storage();
    let x = ident(1);
    engine
        .deposit_asset(&x, &"ICP".to_string(), 50)
        .expect("deposit");
    engine
        .create_swap_request(
            &x,
            &"ICP".to_string(),
            Chain::ICP,
            50,
            &"BTC".to_string(),
            Chain::Bitcoin,
            1_000,
            0,
        )
        .expect("request");
    // The deadline passed but nothing referenced the request yet: it is
    // still pending, and its owner may reclaim the escrow by cancelling.
    engine.cancel_swap_request(1, &x).expect("cancellation");
    assert_eq!(engine.get_balance(&x, &"ICP".to_string()), 50);
    assert_eq!(engine.get_swap_request(1).unwrap().status, SwapStatus::Cancelled);
}

#[test]
fn cancel_refund_overflow_changes_nothing() {
    let mut engine = init_storage();
    let x = ident(1);
    engine
        .deposit_asset(&x, &"ICP".to_string(), 50)
        .expect("deposit");
    engine
        .create_swap_request(
            &x,
            &"ICP".to_string(),
            Chain::ICP,
            50,
            &"BTC".to_string(),
            Chain::Bitcoin,
            HOUR_NANOS,
            0,
        )
        .expect("request");
    engine
        .deposit_asset(&x, &"ICP".to_string(), u64::MAX - 10)
        .expect("fill close to the limit");
    let r = engine.cancel_swap_request(1, &x);
    assert_eq!(r, Err(SwapError::Overflow));
    assert_eq!(engine.get_balance(&x, &"ICP".to_string()), u64::MAX - 10);
    assert_eq!(engine.get_swap_request(1).unwrap().status, SwapStatus::Pending);
}
