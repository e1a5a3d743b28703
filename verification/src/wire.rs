//! The boundary record layer: owned mirrors of the fixed-layout structures
//! that cross the native boundary, the flag and opcode constants, and the
//! encode/decode procedures for transactions.
//!
//! Key and value buffers are held as owned strings and byte vectors; the
//! caller of the native entry point hands over pointer and length pairs that
//! stay valid for the duration of the call.

use vstd::prelude::*;

use crate::keys::{check_key, valid_key};
use crate::result::{spec_from_error_code, from_error_code, OffkvError, OFFKV_ENOMEM};
use crate::txn::{CheckView, OpView, Transaction, TransactionView, TxnCheck, TxnOp, TxnOpResult};

verus! {

/// The lease flag bit passed on `create` and on a transaction `Create`.
pub const OFFKV_LEASE: i32 = 1;

/// Opcode of a transaction `Create`.
pub const OFFKV_OP_CREATE: i32 = 0;

/// Opcode of a transaction `Set`.
pub const OFFKV_OP_SET: i32 = 1;

/// Opcode of a transaction `Erase`.
pub const OFFKV_OP_ERASE: i32 = 2;

/// A check record as the native side expects it: a key and the assumed
/// version.
pub struct WireCheck {
    pub key: String,
    pub version: i64,
}

/// An operation record as the native side expects it: opcode, flags, key,
/// and the value buffer (an `Erase` carries an empty one).
pub struct WireOp {
    pub op_kind: i32,
    pub flags: i32,
    pub key: String,
    pub value: Vec<u8>,
}

/// An operation result record as the native side produces it: the opcode of
/// the operation and the new version it assigned.
pub struct WireOpResult {
    pub op_kind: i32,
    pub version: i64,
}

/// A read result as the native side produces it: the value buffer, whose
/// pointer and length the caller took ownership of, and the version field,
/// which doubles as the error code when negative.
pub struct WireGetResult {
    pub value: Vec<u8>,
    pub version: i64,
}

/// A children result as the native side produces it: the decoded key array,
/// whose ownership the caller took, and the dedicated error code.
pub struct WireChildrenResult {
    pub keys: Vec<String>,
    pub error_code: i32,
}

/// A transaction result as the native side produces it: the operation
/// result records, whose ownership the caller took, and the index of the
/// failing check or operation, meaningful only on failure.
pub struct WireTxnResult {
    pub results: Vec<WireOpResult>,
    pub failed_op: usize,
}

/// The flags word that encodes the lease attribute.
pub open spec fn lease_flag_of(leased: bool) -> i32 {
    if leased {
        OFFKV_LEASE
    } else {
        0
    }
}

/// Encodes the lease attribute into the flags word.
pub fn lease_flag(leased: bool) -> (r: i32)
    ensures
        r == lease_flag_of(leased),
{
    if leased {
        OFFKV_LEASE
    } else {
        0
    }
}

/// `w` is the boundary encoding of the check `c`.
pub open spec fn encoded_check(c: CheckView, w: WireCheck) -> bool {
    &&& w.key@ == c.key
    &&& w.version == c.version
}

/// `w` is the boundary encoding of the operation `op`.
pub open spec fn encoded_op(op: OpView, w: WireOp) -> bool {
    match op {
        OpView::Create { key, value, leased } => {
            &&& w.op_kind == OFFKV_OP_CREATE
            &&& w.flags == lease_flag_of(leased)
            &&& w.key@ == key
            &&& w.value@ == value
        },
        OpView::Assign { key, value } => {
            &&& w.op_kind == OFFKV_OP_SET
            &&& w.flags == 0
            &&& w.key@ == key
            &&& w.value@ == value
        },
        OpView::Erase { key } => {
            &&& w.op_kind == OFFKV_OP_ERASE
            &&& w.flags == 0
            &&& w.key@ == key
            &&& w.value@ == Seq::<u8>::empty()
        },
    }
}

/// Every key the transaction names satisfies the key grammar.
pub open spec fn txn_keys_valid(t: TransactionView) -> bool {
    &&& forall|i: int| 0 <= i < t.checks.len() ==> valid_key(#[trigger] t.checks[i].key)
    &&& forall|i: int| 0 <= i < t.ops.len() ==> valid_key((#[trigger] t.ops[i]).key())
}

/// Copies a byte buffer.
pub(crate) fn copy_bytes(v: &Vec<u8>) -> (r: Vec<u8>)
    ensures
        r@ == v@,
{
    let mut r: Vec<u8> = Vec::new();
    let mut i: usize = 0;
    while i < v.len()
        invariant
            0 <= i <= v.len(),
            r@ == v@.take(i as int),
        decreases v.len() - i,
    {
        r.push(v[i]);
        proof {
            assert(v@.take(i as int).push(v@[i as int]) =~= v@.take(i as int + 1));
        }
        i = i + 1;
    }
    proof {
        assert(v@.take(v@.len() as int) =~= v@);
    }
    r
}

/// Decides whether every key the transaction names satisfies the key
/// grammar.
pub fn check_txn_keys(t: &Transaction) -> (r: bool)
    ensures
        r == txn_keys_valid(t@),
{
    let mut i: usize = 0;
    while i < t.checks.len()
        invariant
            0 <= i <= t.checks.len(),
            t@.checks.len() == t.checks@.len(),
            forall|j: int| 0 <= j < i ==> valid_key(#[trigger] t@.checks[j].key),
        decreases t.checks.len() - i,
    {
        if !check_key(t.checks[i].key.as_str()) {
            proof {
                assert(!valid_key(t@.checks[i as int].key));
            }
            return false;
        }
        i = i + 1;
    }
    let mut i: usize = 0;
    while i < t.ops.len()
        invariant
            0 <= i <= t.ops.len(),
            t@.ops.len() == t.ops@.len(),
            forall|j: int| 0 <= j < i ==> valid_key((#[trigger] t@.ops[j]).key()),
        decreases t.ops.len() - i,
    {
        let key_ok = match &t.ops[i] {
            TxnOp::Create { key, .. } => check_key(key.as_str()),
            TxnOp::Assign { key, .. } => check_key(key.as_str()),
            TxnOp::Erase { key } => check_key(key.as_str()),
        };
        if !key_ok {
            proof {
                assert(!valid_key(t@.ops[i as int].key()));
            }
            return false;
        }
        i = i + 1;
    }
    true
}

/// Encodes a transaction into the boundary arrays of check records and
/// operation records. Every key is validated locally first; an invalid key
/// is reported before anything crosses the boundary.
pub fn encode_transaction(t: &Transaction) -> (r: Result<
    (Vec<WireCheck>, Vec<WireOp>),
    OffkvError,
>)
    ensures
        r is Ok <==> txn_keys_valid(t@),
        r is Err ==> r->Err_0 == OffkvError::InvalidKey,
        r is Ok ==> r->Ok_0.0@.len() == t@.checks.len(),
        r is Ok ==> r->Ok_0.1@.len() == t@.ops.len(),
        r is Ok ==> forall|i: int|
            0 <= i < t@.checks.len() ==> encoded_check(t@.checks[i], #[trigger] r->Ok_0.0@[i]),
        r is Ok ==> forall|i: int|
            0 <= i < t@.ops.len() ==> encoded_op(t@.ops[i], #[trigger] r->Ok_0.1@[i]),
{
    if !check_txn_keys(t) {
        return Err(OffkvError::InvalidKey);
    }
    let mut wire_checks: Vec<WireCheck> = Vec::new();
    let mut i: usize = 0;
    while i < t.checks.len()
        invariant
            0 <= i <= t.checks.len(),
            t@.checks.len() == t.checks@.len(),
            wire_checks@.len() == i,
            forall|j: int| 0 <= j < i ==> encoded_check(t@.checks[j], #[trigger] wire_checks@[j]),
        decreases t.checks.len() - i,
    {
        let c = &t.checks[i];
        wire_checks.push(WireCheck { key: c.key.clone(), version: c.version });
        i = i + 1;
    }

    let mut wire_ops: Vec<WireOp> = Vec::new();
    let mut i: usize = 0;
    while i < t.ops.len()
        invariant
            0 <= i <= t.ops.len(),
            t@.ops.len() == t.ops@.len(),
            wire_ops@.len() == i,
            forall|j: int| 0 <= j < i ==> encoded_op(t@.ops[j], #[trigger] wire_ops@[j]),
        decreases t.ops.len() - i,
    {
        let w = match &t.ops[i] {
            TxnOp::Create { key, value, leased } => WireOp {
                op_kind: OFFKV_OP_CREATE,
                flags: lease_flag(*leased),
                key: key.clone(),
                value: copy_bytes(value),
            },
            TxnOp::Assign { key, value } => WireOp {
                op_kind: OFFKV_OP_SET,
                flags: 0,
                key: key.clone(),
                value: copy_bytes(value),
            },
            TxnOp::Erase { key } => WireOp {
                op_kind: OFFKV_OP_ERASE,
                flags: 0,
                key: key.clone(),
                value: Vec::new(),
            },
        };
        wire_ops.push(w);
        i = i + 1;
    }
    Ok((wire_checks, wire_ops))
}

/// Every result record carries a known opcode that yields a result entry.
pub open spec fn wire_results_ok(rs: Seq<WireOpResult>) -> bool {
    forall|i: int|
        0 <= i < rs.len() ==> (#[trigger] rs[i]).op_kind == OFFKV_OP_CREATE || rs[i].op_kind
            == OFFKV_OP_SET
}

/// The typed result list a well-formed record list decodes to.
pub open spec fn spec_decoded_results(rs: Seq<WireOpResult>) -> Seq<TxnOpResult> {
    rs.map_values(
        |w: WireOpResult|
            if w.op_kind == OFFKV_OP_CREATE {
                TxnOpResult::Create(w.version)
            } else {
                TxnOpResult::Assign(w.version)
            },
    )
}

/// Decodes the operation result records of a committed transaction. An
/// unknown opcode, or the opcode of an operation that yields no result
/// entry, is a breach of the native contract and decodes to `None`, which
/// callers must treat loudly.
pub fn decode_txn_results(result: &WireTxnResult) -> (r: Option<Vec<TxnOpResult>>)
    ensures
        r is Some <==> wire_results_ok(result.results@),
        r is Some ==> r->Some_0@ == spec_decoded_results(result.results@),
{
    let rs = &result.results;
    let mut out: Vec<TxnOpResult> = Vec::new();
    let mut i: usize = 0;
    while i < rs.len()
        invariant
            0 <= i <= rs.len(),
            rs@ == result.results@,
            out@.len() == i,
            forall|j: int|
                0 <= j < i ==> (#[trigger] rs@[j]).op_kind == OFFKV_OP_CREATE || rs@[j].op_kind
                    == OFFKV_OP_SET,
            out@ == spec_decoded_results(rs@.take(i as int)),
        decreases rs.len() - i,
    {
        let w = &rs[i];
        if w.op_kind == OFFKV_OP_CREATE {
            out.push(TxnOpResult::Create(w.version));
        } else if w.op_kind == OFFKV_OP_SET {
            out.push(TxnOpResult::Assign(w.version));
        } else {
            return None;
        }
        proof {
            assert(out@ =~= spec_decoded_results(rs@.take(i as int + 1)));
        }
        i = i + 1;
    }
    proof {
        assert(rs@.take(rs@.len() as int) =~= rs@);
    }
    Some(out)
}

/// The error of a commit: as the error mapper, except that `TxnFailed`
/// takes its failing index from the transaction result structure, which
/// travels beside the primary code.
pub open spec fn spec_txn_error(code: i64, failed_op: u32) -> Option<OffkvError> {
    match spec_from_error_code(code) {
        Some(OffkvError::TxnFailed(_)) => Some(OffkvError::TxnFailed(failed_op)),
        other => other,
    }
}

/// Translates the primary code of a commit, substituting the failing index
/// that the transaction result structure reports beside it.
pub fn txn_error(code: i64, result: &WireTxnResult) -> (r: Option<OffkvError>)
    requires
        code >= OFFKV_ENOMEM,
        result.failed_op <= u32::MAX,
    ensures
        r == spec_txn_error(code, result.failed_op as u32),
{
    let failed_op = result.failed_op as u32;
    match from_error_code(code) {
        Some(OffkvError::TxnFailed(_)) => Some(OffkvError::TxnFailed(failed_op)),
        other => other,
    }
}

} // verus!
