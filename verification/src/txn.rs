//! Transactions: an ordered list of version checks followed by an ordered
//! list of operations, committed atomically.

use vstd::prelude::*;

verus! {

/// A transaction check: satisfied when the key's current version equals
/// `version`, or, when `version` is the sentinel `0`, when the key merely
/// exists.
pub struct TxnCheck {
    /// The key whose version is checked.
    pub key: String,
    /// The version the key is assumed to have; `0` asks only for existence.
    pub version: i64,
}

/// A transaction operation.
pub enum TxnOp {
    /// Creates the key; aborts the transaction if the key already exists or
    /// its direct parent does not.
    Create { key: String, value: Vec<u8>, leased: bool },
    /// Assigns a new value to the key; unlike the plain session `set`, it
    /// aborts the transaction if the key does not exist.
    Assign { key: String, value: Vec<u8> },
    /// Erases the key and its descendants; aborts the transaction if the key
    /// does not exist.
    Erase { key: String },
}

/// A transaction: the checks are evaluated first, as a group, against the
/// current state; only when all hold are the operations applied, in order,
/// and atomically.
pub struct Transaction {
    /// The version checks.
    pub checks: Vec<TxnCheck>,
    /// The operations.
    pub ops: Vec<TxnOp>,
}

/// The new version assigned by one committed operation. Only `Create` and
/// `Assign` operations produce an entry; `Erase` produces none.
#[derive(Clone, Copy, Debug, PartialEq, Eq, Structural)]
pub enum TxnOpResult {
    /// The initial version of the entry a `Create` made.
    Create(i64),
    /// The new version an `Assign` gave its key.
    Assign(i64),
}

/// The mathematical content of a check.
pub struct CheckView {
    pub key: Seq<char>,
    pub version: int,
}

/// The mathematical content of an operation.
pub enum OpView {
    Create { key: Seq<char>, value: Seq<u8>, leased: bool },
    Assign { key: Seq<char>, value: Seq<u8> },
    Erase { key: Seq<char> },
}

/// The mathematical content of a transaction.
pub struct TransactionView {
    pub checks: Seq<CheckView>,
    pub ops: Seq<OpView>,
}

impl View for TxnCheck {
    type V = CheckView;

    open spec fn view(&self) -> CheckView {
        CheckView { key: self.key@, version: self.version as int }
    }
}

impl View for TxnOp {
    type V = OpView;

    open spec fn view(&self) -> OpView {
        match self {
            TxnOp::Create { key, value, leased } => OpView::Create {
                key: key@,
                value: value@,
                leased: *leased,
            },
            TxnOp::Assign { key, value } => OpView::Assign { key: key@, value: value@ },
            TxnOp::Erase { key } => OpView::Erase { key: key@ },
        }
    }
}

impl View for Transaction {
    type V = TransactionView;

    open spec fn view(&self) -> TransactionView {
        TransactionView {
            checks: self.checks@.map_values(|c: TxnCheck| c@),
            ops: self.ops@.map_values(|o: TxnOp| o@),
        }
    }
}

impl OpView {
    /// The key an operation touches.
    pub open spec fn key(self) -> Seq<char> {
        match self {
            OpView::Create { key, .. } => key,
            OpView::Assign { key, .. } => key,
            OpView::Erase { key } => key,
        }
    }
}

} // verus!
