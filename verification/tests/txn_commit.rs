use rsoffkv::result::OffkvError;
use rsoffkv::store::Store;
use rsoffkv::txn::{Transaction, TxnCheck, TxnOp, TxnOpResult};

#[test]
fn a_failed_check_leaves_every_key_untouched() {
    let mut store = Store::new();
    let version_a = store.create("/a", &vec![1], false).unwrap();
    let version_b = store.create("/b", &vec![2], false).unwrap();

    let txn = Transaction {
        checks: vec![TxnCheck { key: String::from("/a"), version: version_a + 7 }],
        ops: vec![
            TxnOp::Assign { key: String::from("/a"), value: vec![120] },
            TxnOp::Erase { key: String::from("/b") },
        ],
    };
    assert_eq!(store.commit(&txn), Err(OffkvError::TxnFailed(0)));

    assert_eq!(store.get("/a").unwrap(), (version_a, vec![1]));
    assert_eq!(store.get("/b").unwrap(), (version_b, vec![2]));
}

#[test]
fn the_failing_check_index_is_reported() {
    let mut store = Store::new();
    let version_a = store.create("/a", &vec![1], false).unwrap();

    let txn = Transaction {
        checks: vec![
            TxnCheck { key: String::from("/a"), version: version_a },
            TxnCheck { key: String::from("/missing"), version: 0 },
        ],
        ops: Vec::new(),
    };
    assert_eq!(store.commit(&txn), Err(OffkvError::TxnFailed(1)));
}

#[test]
fn a_satisfied_transaction_applies_all_ops_in_order() {
    let mut store = Store::new();
    let version_a = store.create("/a", &vec![1], false).unwrap();

    let txn = Transaction {
        checks: vec![TxnCheck { key: String::from("/a"), version: version_a }],
        ops: vec![
            TxnOp::Create { key: String::from("/c"), value: vec![121], leased: false },
            TxnOp::Assign { key: String::from("/a"), value: vec![120] },
        ],
    };
    let results = store.commit(&txn).unwrap();
    assert_eq!(results.len(), 2);
    let version_c = match results[0] {
        TxnOpResult::Create(v) => v,
        _ => panic!("first result must come from the create"),
    };
    let version_a2 = match results[1] {
        TxnOpResult::Assign(v) => v,
        _ => panic!("second result must come from the assign"),
    };
    assert!(version_a2 > version_c);
    assert!(version_c > version_a);

    assert_eq!(store.get("/c").unwrap(), (version_c, vec![121]));
    assert_eq!(store.get("/a").unwrap(), (version_a2, vec![120]));
}

#[test]
fn a_zero_version_check_asks_only_for_existence() {
    let mut store = Store::new();
    store.create("/a", &vec![1], false).unwrap();
    let txn = Transaction {
        checks: vec![TxnCheck { key: String::from("/a"), version: 0 }],
        ops: vec![TxnOp::Assign { key: String::from("/a"), value: vec![2] }],
    };
    assert!(store.commit(&txn).is_ok());
}

#[test]
fn a_failing_operation_rolls_the_whole_transaction_back() {
    let mut store = Store::new();
    let version_a = store.create("/a", &vec![1], false).unwrap();

    let txn = Transaction {
        checks: Vec::new(),
        ops: vec![
            TxnOp::Assign { key: String::from("/a"), value: vec![9] },
            TxnOp::Create { key: String::from("/a"), value: vec![8], leased: false },
        ],
    };
    assert_eq!(store.commit(&txn), Err(OffkvError::TxnFailed(1)));
    assert_eq!(store.get("/a").unwrap(), (version_a, vec![1]));
}

#[test]
fn erase_ops_contribute_no_result_entry() {
    let mut store = Store::new();
    store.create("/a", &vec![1], false).unwrap();
    store.create("/b", &vec![2], false).unwrap();

    let txn = Transaction {
        checks: Vec::new(),
        ops: vec![
            TxnOp::Erase { key: String::from("/b") },
            TxnOp::Assign { key: String::from("/a"), value: vec![3] },
        ],
    };
    let results = store.commit(&txn).unwrap();
    assert_eq!(results.len(), 1);
    assert!(matches!(results[0], TxnOpResult::Assign(_)));
    assert_eq!(store.get("/b"), Err(OffkvError::NoEntry));
}

#[test]
fn a_transaction_with_a_malformed_key_is_rejected_locally() {
    let mut store = Store::new();
    store.create("/a", &vec![1], false).unwrap();
    let txn = Transaction {
        checks: Vec::new(),
        ops: vec![TxnOp::Erase { key: String::from("a//b") }],
    };
    assert_eq!(store.commit(&txn), Err(OffkvError::InvalidKey));
    assert!(store.get("/a").is_ok());
}
