use order_pool::bundle::{BundleExt, RecoveredTx, TxBundle};
use order_pool::pool::OrderPool;
use order_pool::surface::{RegistrationContext, RegistrationError};

fn one_tx_bundle(hash: u64) -> TxBundle {
    let txs = vec![RecoveredTx { hash, encoding: vec![0xab] }];
    TxBundle::new(txs, vec![false], vec![false]).unwrap()
}

/// A write completed through the original handle is observed through
/// a clone, and the other way round: clones share one state.
#[test]
fn clone_shares_one_pool_state() {
    let pool = OrderPool::default();
    let handle = pool.clone();
    assert_eq!(pool.bundle_count(), 0);
    assert_eq!(handle.bundle_count(), 0);

    pool.submit_bundle(one_tx_bundle(1)).unwrap();
    assert_eq!(handle.bundle_count(), 1);

    handle.submit_bundle(one_tx_bundle(2)).unwrap();
    assert_eq!(pool.bundle_count(), 2);

    let b = handle.get_bundle(0).expect("bundle submitted through the original");
    assert_eq!(b.critical_txs()[0].hash, 1);
}

#[test]
fn get_bundle_out_of_range_is_none() {
    let pool = OrderPool::default();
    assert!(pool.get_bundle(0).is_none());
    pool.submit_bundle(one_tx_bundle(9)).unwrap();
    assert!(pool.get_bundle(0).is_some());
    assert!(pool.get_bundle(1).is_none());
}

#[test]
fn fetched_bundle_classifies_like_the_submitted_one() {
    let pool = OrderPool::default();
    let txs = vec![
        RecoveredTx { hash: 1, encoding: vec![0x01] },
        RecoveredTx { hash: 2, encoding: vec![0x02] },
    ];
    let b = TxBundle::new(txs, vec![false, true], vec![true, false]).unwrap();
    pool.submit_bundle(b).unwrap();

    let fetched = pool.get_bundle(0).unwrap();
    let required: Vec<u64> = fetched.required_txs().iter().map(|t| t.hash).collect();
    let failable: Vec<u64> = fetched.failable_txs().iter().map(|t| t.hash).collect();
    assert_eq!(required, vec![1]);
    assert_eq!(failable, vec![1]);
    let encoded = fetched.transactions_encoded();
    assert_eq!(encoded[0].0, vec![0x01]);
    assert_eq!(encoded[1].0, vec![0x02]);
}

/// Registering the pool's surface twice under its one name replaces
/// the prior registration: one entry remains.
#[test]
fn repeated_registration_replaces() {
    let pool = OrderPool::default();
    let mut ctx = RegistrationContext::new();

    pool.configure_rpc(&mut ctx).unwrap();
    assert_eq!(ctx.len(), 1);

    pool.configure_rpc(&mut ctx).unwrap();
    assert_eq!(ctx.len(), 1);

    let m = ctx.get(0).unwrap();
    assert_eq!(m.name, "bundles");
    assert_eq!(
        m.methods,
        vec!["bundle_sendBundle", "bundle_bundleCount", "bundle_getBundle"]
    );
}

#[test]
fn strict_insertion_refuses_duplicate_name() {
    let pool = OrderPool::default();
    let mut ctx = RegistrationContext::new();

    ctx.add_module(pool.rpc_modules()).unwrap();
    let second = ctx.add_module(pool.rpc_modules());
    assert_eq!(second.unwrap_err(), RegistrationError::DuplicateName);
    assert_eq!(ctx.len(), 1);
}

#[test]
fn registration_contexts_are_independent_until_registered() {
    let pool = OrderPool::default();
    let mut a = RegistrationContext::new();
    let b = RegistrationContext::new();
    pool.configure_rpc(&mut a).unwrap();
    assert_eq!(a.len(), 1);
    assert_eq!(b.len(), 0);
    assert!(a.get(1).is_none());
}
