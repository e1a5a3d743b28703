use rsoffkv::result::OffkvError;
use rsoffkv::txn::{Transaction, TxnCheck, TxnOp, TxnOpResult};
use rsoffkv::wire::{
    check_txn_keys, decode_txn_results, encode_transaction, lease_flag, WireOpResult,
    WireTxnResult, OFFKV_LEASE, OFFKV_OP_CREATE, OFFKV_OP_ERASE, OFFKV_OP_SET,
};

fn sample_transaction() -> Transaction {
    Transaction {
        checks: vec![TxnCheck { key: String::from("/key"), version: 4 }],
        ops: vec![
            TxnOp::Create {
                key: String::from("/key/child"),
                value: vec![1, 2],
                leased: true,
            },
            TxnOp::Assign { key: String::from("/key"), value: vec![3] },
            TxnOp::Erase { key: String::from("/key/old") },
        ],
    }
}

#[test]
fn opcodes_and_lease_flag_have_their_documented_values() {
    assert_eq!(OFFKV_OP_CREATE, 0);
    assert_eq!(OFFKV_OP_SET, 1);
    assert_eq!(OFFKV_OP_ERASE, 2);
    assert_eq!(OFFKV_LEASE, 1);
    assert_eq!(lease_flag(true), OFFKV_LEASE);
    assert_eq!(lease_flag(false), 0);
}

#[test]
fn encode_lays_out_checks_and_ops_in_order() {
    let (checks, ops) = encode_transaction(&sample_transaction()).unwrap();

    assert_eq!(checks.len(), 1);
    assert_eq!(checks[0].key, "/key");
    assert_eq!(checks[0].version, 4);

    assert_eq!(ops.len(), 3);
    assert_eq!(ops[0].op_kind, OFFKV_OP_CREATE);
    assert_eq!(ops[0].flags, OFFKV_LEASE);
    assert_eq!(ops[0].key, "/key/child");
    assert_eq!(ops[0].value, vec![1, 2]);

    assert_eq!(ops[1].op_kind, OFFKV_OP_SET);
    assert_eq!(ops[1].flags, 0);
    assert_eq!(ops[1].key, "/key");
    assert_eq!(ops[1].value, vec![3]);

    assert_eq!(ops[2].op_kind, OFFKV_OP_ERASE);
    assert_eq!(ops[2].flags, 0);
    assert_eq!(ops[2].key, "/key/old");
    assert!(ops[2].value.is_empty());
}

#[test]
fn encode_rejects_a_transaction_with_a_malformed_key() {
    let txn = Transaction {
        checks: vec![TxnCheck { key: String::from("key"), version: 0 }],
        ops: Vec::new(),
    };
    assert_eq!(
        encode_transaction(&txn).map(|_| ()),
        Err(OffkvError::InvalidKey)
    );

    let txn = Transaction {
        checks: Vec::new(),
        ops: vec![TxnOp::Erase { key: String::from("/bad/") }],
    };
    assert!(!check_txn_keys(&txn));
    assert_eq!(
        encode_transaction(&txn).map(|_| ()),
        Err(OffkvError::InvalidKey)
    );
}

#[test]
fn decode_maps_result_records_in_order() {
    let result = WireTxnResult {
        results: vec![
            WireOpResult { op_kind: OFFKV_OP_CREATE, version: 5 },
            WireOpResult { op_kind: OFFKV_OP_SET, version: 6 },
        ],
        failed_op: 0,
    };
    assert_eq!(
        decode_txn_results(&result),
        Some(vec![TxnOpResult::Create(5), TxnOpResult::Assign(6)])
    );
}

#[test]
fn decode_rejects_an_unknown_opcode() {
    let result = WireTxnResult {
        results: vec![
            WireOpResult { op_kind: OFFKV_OP_CREATE, version: 5 },
            WireOpResult { op_kind: 7, version: 6 },
        ],
        failed_op: 0,
    };
    assert_eq!(decode_txn_results(&result), None);

    let result = WireTxnResult {
        results: vec![WireOpResult { op_kind: OFFKV_OP_ERASE, version: 1 }],
        failed_op: 0,
    };
    assert_eq!(decode_txn_results(&result), None);
}

#[test]
fn decode_of_no_records_is_empty() {
    let result = WireTxnResult { results: Vec::new(), failed_op: 0 };
    assert_eq!(decode_txn_results(&result), Some(Vec::new()));
}
