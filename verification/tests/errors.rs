use rsoffkv::result::{
    from_error_code, to_error_code, OffkvError, OFFKV_EADDR, OFFKV_ECONN, OFFKV_EEPHEM,
    OFFKV_EEXIST, OFFKV_EKEY, OFFKV_ENOENT, OFFKV_ENOMEM, OFFKV_ESRV, OFFKV_ETXN,
};
use rsoffkv::session::{decode_children_reply, decode_get_reply, decode_open_reply,
    decode_version_reply};
use rsoffkv::wire::{txn_error, WireChildrenResult, WireGetResult, WireTxnResult};

#[test]
fn error_codes_have_their_documented_values() {
    assert_eq!(OFFKV_EADDR, -1);
    assert_eq!(OFFKV_EKEY, -2);
    assert_eq!(OFFKV_ENOENT, -3);
    assert_eq!(OFFKV_EEXIST, -4);
    assert_eq!(OFFKV_EEPHEM, -5);
    assert_eq!(OFFKV_ECONN, -6);
    assert_eq!(OFFKV_ETXN, -7);
    assert_eq!(OFFKV_ESRV, -8);
    assert_eq!(OFFKV_ENOMEM, -9);
}

#[test]
fn every_defined_code_maps_to_its_error() {
    assert_eq!(from_error_code(-1), Some(OffkvError::InvalidAddress));
    assert_eq!(from_error_code(-2), Some(OffkvError::InvalidKey));
    assert_eq!(from_error_code(-3), Some(OffkvError::NoEntry));
    assert_eq!(from_error_code(-4), Some(OffkvError::EntryExists));
    assert_eq!(from_error_code(-5), Some(OffkvError::NoChildrenForEphemeral));
    assert_eq!(from_error_code(-6), Some(OffkvError::ConnectionLost));
    assert_eq!(from_error_code(-7), Some(OffkvError::TxnFailed(0)));
    assert_eq!(from_error_code(-8), Some(OffkvError::ServiceError));
    assert_eq!(from_error_code(-9), Some(OffkvError::OutOfMemory));
}

#[test]
fn non_negative_codes_mean_success() {
    assert_eq!(from_error_code(0), None);
    assert_eq!(from_error_code(1), None);
    assert_eq!(from_error_code(i64::MAX), None);
}

#[test]
fn every_error_translates_back_to_its_code() {
    assert_eq!(to_error_code(&OffkvError::InvalidAddress), -1);
    assert_eq!(to_error_code(&OffkvError::InvalidKey), -2);
    assert_eq!(to_error_code(&OffkvError::NoEntry), -3);
    assert_eq!(to_error_code(&OffkvError::EntryExists), -4);
    assert_eq!(to_error_code(&OffkvError::NoChildrenForEphemeral), -5);
    assert_eq!(to_error_code(&OffkvError::ConnectionLost), -6);
    assert_eq!(to_error_code(&OffkvError::TxnFailed(17)), -7);
    assert_eq!(to_error_code(&OffkvError::ServiceError), -8);
    assert_eq!(to_error_code(&OffkvError::OutOfMemory), -9);
}

#[test]
fn code_round_trip_holds_on_the_defined_range() {
    for code in -9..=-1 {
        let error = from_error_code(code).unwrap();
        assert_eq!(to_error_code(&error), code);
    }
}

#[test]
fn txn_error_substitutes_the_failing_index() {
    let at3 = WireTxnResult { results: Vec::new(), failed_op: 3 };
    let at0 = WireTxnResult { results: Vec::new(), failed_op: 0 };
    let at5 = WireTxnResult { results: Vec::new(), failed_op: 5 };
    assert_eq!(txn_error(-7, &at3), Some(OffkvError::TxnFailed(3)));
    assert_eq!(txn_error(-7, &at0), Some(OffkvError::TxnFailed(0)));
    assert_eq!(txn_error(-3, &at5), Some(OffkvError::NoEntry));
    assert_eq!(txn_error(0, &at5), None);
}

#[test]
fn version_reply_decodes_versions_and_errors() {
    assert_eq!(decode_version_reply(42), Ok(42));
    assert_eq!(decode_version_reply(0), Ok(0));
    assert_eq!(decode_version_reply(-3), Err(OffkvError::NoEntry));
    assert_eq!(decode_version_reply(-6), Err(OffkvError::ConnectionLost));
    assert_eq!(decode_version_reply(-9), Err(OffkvError::OutOfMemory));
}

#[test]
fn get_reply_hands_over_the_buffer_on_success() {
    let good = WireGetResult { value: vec![1, 2, 3], version: 7 };
    assert_eq!(decode_get_reply(good), Ok((7, vec![1, 2, 3])));
    let bad = WireGetResult { value: Vec::new(), version: -3 };
    assert_eq!(decode_get_reply(bad), Err(OffkvError::NoEntry));
}

#[test]
fn children_reply_hands_over_the_keys_on_success() {
    let keys = vec![String::from("/a/b"), String::from("/a/c")];
    let good = WireChildrenResult { keys: keys.clone(), error_code: 0 };
    assert_eq!(decode_children_reply(good), Ok(keys));
    let bad = WireChildrenResult { keys: Vec::new(), error_code: -3 };
    assert_eq!(decode_children_reply(bad), Err(OffkvError::NoEntry));
}

#[test]
fn every_error_describes_itself() {
    assert_eq!(OffkvError::InvalidAddress.message(), "invalid address");
    assert_eq!(OffkvError::InvalidKey.message(), "invalid key");
    assert_eq!(OffkvError::NoEntry.message(), "no entry");
    assert_eq!(OffkvError::EntryExists.message(), "entry exists");
    assert_eq!(
        OffkvError::NoChildrenForEphemeral.message(),
        "leased entry cannot have children"
    );
    assert_eq!(OffkvError::ConnectionLost.message(), "connection lost");
    assert_eq!(OffkvError::ServiceError.message(), "service error");
    assert_eq!(OffkvError::OutOfMemory.message(), "out of memory");
}

#[test]
fn a_failed_transaction_describes_its_failing_index() {
    assert_eq!(
        OffkvError::TxnFailed(7).message(),
        "transaction failed (failed operation index: 7)"
    );
    assert_eq!(
        OffkvError::TxnFailed(0).message(),
        "transaction failed (failed operation index: 0)"
    );
    assert_eq!(
        OffkvError::TxnFailed(1234).message(),
        "transaction failed (failed operation index: 1234)"
    );
    assert_eq!(
        OffkvError::TxnFailed(u32::MAX).message(),
        "transaction failed (failed operation index: 4294967295)"
    );
}

#[test]
fn open_reply_decodes_success_and_failure() {
    assert_eq!(decode_open_reply(0), Ok(()));
    assert_eq!(decode_open_reply(-1), Err(OffkvError::InvalidAddress));
    assert_eq!(decode_open_reply(-8), Err(OffkvError::ServiceError));
}
