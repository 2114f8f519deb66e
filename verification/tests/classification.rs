use order_pool::bundle::{Bundle, BundleError, BundleExt, RecoveredTx, TxBundle};

fn tx(hash: u64, encoding: Vec<u8>) -> RecoveredTx {
    RecoveredTx { hash, encoding }
}

fn hashes(txs: &[&RecoveredTx]) -> Vec<u64> {
    txs.iter().map(|t| t.hash).collect()
}

/// T1 neither optional nor allowed to fail, T2 allowed to fail only,
/// T3 optional only: required = {T1, T2}, optional = {T3},
/// critical = {T1}, and failable (allowed-to-fail polarity) = {T2}.
#[test]
fn classification_scenario() {
    let txs = vec![tx(1, vec![0x11]), tx(2, vec![0x22]), tx(3, vec![0x33])];
    let b = TxBundle::new(txs, vec![false, false, true], vec![false, true, false]).unwrap();

    assert_eq!(hashes(&b.required_txs()), vec![1, 2]);
    assert_eq!(hashes(&b.optional_txs()), vec![3]);
    assert_eq!(hashes(&b.critical_txs()), vec![1]);
    assert_eq!(hashes(&b.failable_txs()), vec![2]);
}

#[test]
fn required_optional_partition() {
    let txs = vec![tx(7, vec![]), tx(8, vec![]), tx(9, vec![]), tx(10, vec![])];
    let b = TxBundle::new(
        txs,
        vec![true, false, true, false],
        vec![false, true, true, false],
    )
    .unwrap();

    let required = hashes(&b.required_txs());
    let optional = hashes(&b.optional_txs());
    assert_eq!(required.len() + optional.len(), 4);
    assert_eq!(required, vec![8, 10]);
    assert_eq!(optional, vec![7, 9]);
    for h in &required {
        assert!(!optional.contains(h));
    }
}

#[test]
fn critical_iff_required_and_not_failable() {
    let txs = vec![tx(1, vec![]), tx(2, vec![]), tx(3, vec![]), tx(4, vec![])];
    let b = TxBundle::new(
        txs,
        vec![false, false, true, true],
        vec![false, true, false, true],
    )
    .unwrap();

    let required = hashes(&b.required_txs());
    let critical = hashes(&b.critical_txs());
    assert_eq!(critical, vec![1]);
    for h in &critical {
        assert!(required.contains(h));
    }
    // required and allowed-to-fail: present in required, not critical
    assert!(required.contains(&2) && !critical.contains(&2));
}

/// In a bundle where every optional transaction is also allowed to
/// fail, the failable and critical views cover all transactions and
/// share none.
#[test]
fn failable_critical_cover() {
    let txs = vec![tx(1, vec![]), tx(2, vec![]), tx(3, vec![])];
    let b = TxBundle::new(txs, vec![false, false, true], vec![false, true, true]).unwrap();

    let failable = hashes(&b.failable_txs());
    let critical = hashes(&b.critical_txs());
    assert_eq!(critical, vec![1]);
    assert_eq!(failable, vec![2, 3]);
    for h in 1u64..=3 {
        assert!(failable.contains(&h) ^ critical.contains(&h));
    }
}

/// The encoded listing yields every transaction, in bundle order,
/// each paired with exactly the bytes it was recovered with.
#[test]
fn encoded_listing_pairs_each_transaction() {
    let txs = vec![tx(5, vec![0xde, 0xad]), tx(6, vec![0xbe, 0xef]), tx(7, vec![])];
    let b = TxBundle::new(txs, vec![false, true, false], vec![true, false, false]).unwrap();

    let encoded = b.transactions_encoded();
    assert_eq!(encoded.len(), 3);
    assert_eq!(encoded[0].1.hash, 5);
    assert_eq!(encoded[1].1.hash, 6);
    assert_eq!(encoded[2].1.hash, 7);
    assert_eq!(encoded[0].0, vec![0xde, 0xad]);
    assert_eq!(encoded[1].0, vec![0xbe, 0xef]);
    assert_eq!(encoded[2].0, Vec::<u8>::new());
    for (bytes, t) in &encoded {
        assert_eq!(bytes, &t.encoding);
    }
}

#[test]
fn empty_bundle_has_empty_views() {
    let b = TxBundle::new(Vec::new(), Vec::new(), Vec::new()).unwrap();
    assert!(b.required_txs().is_empty());
    assert!(b.optional_txs().is_empty());
    assert!(b.critical_txs().is_empty());
    assert!(b.failable_txs().is_empty());
    assert!(b.transactions_encoded().is_empty());
}

#[test]
fn duplicate_hash_is_rejected() {
    let txs = vec![tx(1, vec![0x01]), tx(2, vec![0x02]), tx(1, vec![0x03])];
    let r = TxBundle::new(txs, vec![false, false, false], vec![false, false, false]);
    assert_eq!(r.unwrap_err(), BundleError::DuplicateTxHash);
}

#[test]
fn attribute_length_mismatch_is_rejected() {
    let txs = vec![tx(1, vec![]), tx(2, vec![])];
    let r = TxBundle::new(txs, vec![false], vec![false, false]);
    assert_eq!(r.unwrap_err(), BundleError::AttributeLengthMismatch);
}

#[test]
fn attribute_accessors_answer_by_hash() {
    let txs = vec![tx(40, vec![]), tx(41, vec![])];
    let b = TxBundle::new(txs, vec![true, false], vec![false, true]).unwrap();

    assert!(b.is_optional(40));
    assert!(!b.is_optional(41));
    assert!(!b.is_allowed_to_fail(40));
    assert!(b.is_allowed_to_fail(41));
    assert_eq!(b.transactions().len(), 2);
}
