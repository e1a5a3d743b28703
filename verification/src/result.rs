//! The error taxonomy of the binding and the translation between the small
//! signed integer codes reported by the native side and typed errors.

use vstd::prelude::*;

verus! {

/// Native code for a malformed service address.
pub const OFFKV_EADDR: i64 = -1;

/// Native code for a malformed key.
pub const OFFKV_EKEY: i64 = -2;

/// Native code for a missing entry (or a missing parent on create).
pub const OFFKV_ENOENT: i64 = -3;

/// Native code for an entry that already exists.
pub const OFFKV_EEXIST: i64 = -4;

/// Native code for an attempt to create a child of a leased entry.
pub const OFFKV_EEPHEM: i64 = -5;

/// Native code for a lost connection to the service.
pub const OFFKV_ECONN: i64 = -6;

/// Native code for a failed transaction; the failing index travels separately
/// in the transaction result structure.
pub const OFFKV_ETXN: i64 = -7;

/// Native code for a service-specific failure.
pub const OFFKV_ESRV: i64 = -8;

/// Native code for an allocation failure on the native side.
pub const OFFKV_ENOMEM: i64 = -9;

/// Errors reported by the binding.
///
/// Local validation failures (`InvalidAddress`, `InvalidKey`) are raised
/// before any native call; the rest translate the native integer codes.
#[derive(Clone, Copy, Debug, PartialEq, Eq, Structural)]
pub enum OffkvError {
    /// The address given on open is not `<scheme>://<host>:<port>` with a
    /// supported scheme.
    InvalidAddress,
    /// The key does not match the key grammar: one or more non-empty
    /// ASCII segments, each introduced by `/`.
    InvalidKey,
    /// The operation needs the key (or, on create, its direct parent) to
    /// exist, and it does not.
    NoEntry,
    /// The operation needs the key to be absent, and it exists.
    EntryExists,
    /// A leased entry may not have children.
    NoChildrenForEphemeral,
    /// The connection with the service was lost.
    ConnectionLost,
    /// The transaction aborted; carries the index of the failing check or
    /// operation.
    TxnFailed(u32),
    /// A service-specific failure.
    ServiceError,
    /// The native side failed to allocate.
    OutOfMemory,
}

/// The character of one decimal digit.
pub open spec fn spec_digit(d: nat) -> char {
    if d == 0 {
        '0'
    } else if d == 1 {
        '1'
    } else if d == 2 {
        '2'
    } else if d == 3 {
        '3'
    } else if d == 4 {
        '4'
    } else if d == 5 {
        '5'
    } else if d == 6 {
        '6'
    } else if d == 7 {
        '7'
    } else if d == 8 {
        '8'
    } else {
        '9'
    }
}

/// The decimal rendering of a number, most significant digit first, with
/// no leading zero except for the number `0` itself.
pub open spec fn spec_decimal(n: nat) -> Seq<char>
    decreases n,
{
    if n < 10 {
        seq![spec_digit(n)]
    } else {
        spec_decimal(n / 10).push(spec_digit(n % 10))
    }
}

/// The text of one decimal digit.
fn digit_str(d: u32) -> (r: &'static str)
    requires
        d < 10,
    ensures
        r@ == seq![spec_digit(d as nat)],
{
    proof {
        reveal_strlit("0");
        reveal_strlit("1");
        reveal_strlit("2");
        reveal_strlit("3");
        reveal_strlit("4");
        reveal_strlit("5");
        reveal_strlit("6");
        reveal_strlit("7");
        reveal_strlit("8");
        reveal_strlit("9");
    }
    if d == 0 {
        "0"
    } else if d == 1 {
        "1"
    } else if d == 2 {
        "2"
    } else if d == 3 {
        "3"
    } else if d == 4 {
        "4"
    } else if d == 5 {
        "5"
    } else if d == 6 {
        "6"
    } else if d == 7 {
        "7"
    } else if d == 8 {
        "8"
    } else {
        "9"
    }
}

/// Renders a number in decimal.
fn decimal_string(n: u32) -> (r: String)
    ensures
        r@ == spec_decimal(n as nat),
    decreases n,
{
    if n < 10 {
        let mut s = String::new();
        s.append(digit_str(n));
        proof {
            assert(s@ =~= spec_decimal(n as nat));
        }
        s
    } else {
        let mut s = decimal_string(n / 10);
        s.append(digit_str(n % 10));
        proof {
            assert(s@ =~= spec_decimal(n as nat));
        }
        s
    }
}

/// The description of each error, in words. The description of a failed
/// transaction carries the failing index in decimal.
pub open spec fn spec_message(error: OffkvError) -> Seq<char> {
    match error {
        OffkvError::InvalidAddress => "invalid address"@,
        OffkvError::InvalidKey => "invalid key"@,
        OffkvError::NoEntry => "no entry"@,
        OffkvError::EntryExists => "entry exists"@,
        OffkvError::NoChildrenForEphemeral => "leased entry cannot have children"@,
        OffkvError::ConnectionLost => "connection lost"@,
        OffkvError::TxnFailed(index) => "transaction failed (failed operation index: "@
            + spec_decimal(index as nat) + ")"@,
        OffkvError::ServiceError => "service error"@,
        OffkvError::OutOfMemory => "out of memory"@,
    }
}

impl OffkvError {
    /// Describes the error in words; for a failed transaction, the failing
    /// index is rendered into the description.
    pub fn message(&self) -> (r: String)
        ensures
            r@ == spec_message(*self),
    {
        match *self {
            OffkvError::InvalidAddress => String::from_str("invalid address"),
            OffkvError::InvalidKey => String::from_str("invalid key"),
            OffkvError::NoEntry => String::from_str("no entry"),
            OffkvError::EntryExists => String::from_str("entry exists"),
            OffkvError::NoChildrenForEphemeral => String::from_str(
                "leased entry cannot have children",
            ),
            OffkvError::ConnectionLost => String::from_str("connection lost"),
            OffkvError::TxnFailed(index) => {
                let mut s = String::from_str("transaction failed (failed operation index: ");
                let rendered = decimal_string(index);
                s.append(rendered.as_str());
                s.append(")");
                s
            },
            OffkvError::ServiceError => String::from_str("service error"),
            OffkvError::OutOfMemory => String::from_str("out of memory"),
        }
    }
}

/// The meaning of a native code: `None` for success, `Some` error
/// otherwise. It is total on the defined code range
/// `OFFKV_ENOMEM ..= OFFKV_EADDR` and on all non-negative codes.
pub open spec fn spec_from_error_code(code: i64) -> Option<OffkvError> {
    if code == OFFKV_EADDR {
        Some(OffkvError::InvalidAddress)
    } else if code == OFFKV_EKEY {
        Some(OffkvError::InvalidKey)
    } else if code == OFFKV_ENOENT {
        Some(OffkvError::NoEntry)
    } else if code == OFFKV_EEXIST {
        Some(OffkvError::EntryExists)
    } else if code == OFFKV_EEPHEM {
        Some(OffkvError::NoChildrenForEphemeral)
    } else if code == OFFKV_ECONN {
        Some(OffkvError::ConnectionLost)
    } else if code == OFFKV_ETXN {
        Some(OffkvError::TxnFailed(0))
    } else if code == OFFKV_ESRV {
        Some(OffkvError::ServiceError)
    } else if code == OFFKV_ENOMEM {
        Some(OffkvError::OutOfMemory)
    } else {
        None
    }
}

/// The native code that names an error. The failing index of `TxnFailed`
/// has no place in the code and is dropped.
pub open spec fn spec_to_error_code(error: OffkvError) -> i64 {
    match error {
        OffkvError::InvalidAddress => OFFKV_EADDR,
        OffkvError::InvalidKey => OFFKV_EKEY,
        OffkvError::NoEntry => OFFKV_ENOENT,
        OffkvError::EntryExists => OFFKV_EEXIST,
        OffkvError::NoChildrenForEphemeral => OFFKV_EEPHEM,
        OffkvError::ConnectionLost => OFFKV_ECONN,
        OffkvError::TxnFailed(_) => OFFKV_ETXN,
        OffkvError::ServiceError => OFFKV_ESRV,
        OffkvError::OutOfMemory => OFFKV_ENOMEM,
    }
}

/// Translates a native code into `None` for success or `Some` error.
///
/// A negative code below the defined range is a breach of the native
/// contract, not a runtime case; callers must reject such a code loudly
/// before asking for a translation.
pub fn from_error_code(code: i64) -> (r: Option<OffkvError>)
    requires
        code >= OFFKV_ENOMEM,
    ensures
        r == spec_from_error_code(code),
{
    if code >= 0 {
        None
    } else if code == OFFKV_EADDR {
        Some(OffkvError::InvalidAddress)
    } else if code == OFFKV_EKEY {
        Some(OffkvError::InvalidKey)
    } else if code == OFFKV_ENOENT {
        Some(OffkvError::NoEntry)
    } else if code == OFFKV_EEXIST {
        Some(OffkvError::EntryExists)
    } else if code == OFFKV_EEPHEM {
        Some(OffkvError::NoChildrenForEphemeral)
    } else if code == OFFKV_ECONN {
        Some(OffkvError::ConnectionLost)
    } else if code == OFFKV_ETXN {
        Some(OffkvError::TxnFailed(0))
    } else if code == OFFKV_ESRV {
        Some(OffkvError::ServiceError)
    } else {
        Some(OffkvError::OutOfMemory)
    }
}

/// Translates an error back to the code the native side uses for it.
pub fn to_error_code(error: &OffkvError) -> (r: i64)
    ensures
        r == spec_to_error_code(*error),
{
    match *error {
        OffkvError::InvalidAddress => OFFKV_EADDR,
        OffkvError::InvalidKey => OFFKV_EKEY,
        OffkvError::NoEntry => OFFKV_ENOENT,
        OffkvError::EntryExists => OFFKV_EEXIST,
        OffkvError::NoChildrenForEphemeral => OFFKV_EEPHEM,
        OffkvError::ConnectionLost => OFFKV_ECONN,
        OffkvError::TxnFailed(_) => OFFKV_ETXN,
        OffkvError::ServiceError => OFFKV_ESRV,
        OffkvError::OutOfMemory => OFFKV_ENOMEM,
    }
}

/// The translation is bidirectional: every defined negative code names
/// exactly one error, and translating that error back restores the code.
pub proof fn lemma_code_error_code_round_trip(code: i64)
    requires
        OFFKV_ENOMEM <= code <= OFFKV_EADDR,
    ensures
        spec_from_error_code(code) is Some,
        spec_to_error_code(spec_from_error_code(code)->Some_0) == code,
{
}

/// The translation is bidirectional: every error maps to a defined negative
/// code, and translating the code back restores the error, up to the failing
/// index of `TxnFailed`, which the code alone does not carry.
pub proof fn lemma_error_code_error_round_trip(error: OffkvError)
    ensures
        OFFKV_ENOMEM <= spec_to_error_code(error) <= OFFKV_EADDR,
        error is TxnFailed ==> spec_from_error_code(spec_to_error_code(error))
            == Some(OffkvError::TxnFailed(0)),
        !(error is TxnFailed) ==> spec_from_error_code(spec_to_error_code(error))
            == Some(error),
{
}

} // verus!
