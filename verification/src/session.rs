//! Decoding of single-call native replies, and the named accessors for the
//! version sentinel that the native contract overloads.
//!
//! On `get`-style calls the native side encodes failure as a negative
//! version; on structural calls it reports a dedicated code field. Both
//! translate through the error mapper; these helpers keep the overload in
//! one place.

use vstd::prelude::*;

use crate::keys::valid_key;
use crate::result::{spec_from_error_code, from_error_code, OffkvError, OFFKV_ENOMEM};
use crate::wire::{WireChildrenResult, WireGetResult};

verus! {

/// What a version-or-code reply decodes to: the version when the reply is
/// non-negative, the mapped error when it is a defined code.
pub open spec fn spec_decode_version_reply(ret: i64) -> Result<i64, OffkvError> {
    match spec_from_error_code(ret) {
        Some(e) => Err(e),
        None => Ok(ret),
    }
}

/// Decodes a reply that overloads one signed integer as either a version
/// (non-negative) or an error code (negative). `create`, `set`, `cas`,
/// `exists` and the version field of `get` all answer in this shape.
pub fn decode_version_reply(ret: i64) -> (r: Result<i64, OffkvError>)
    requires
        ret >= OFFKV_ENOMEM,
    ensures
        r == spec_decode_version_reply(ret),
{
    match from_error_code(ret) {
        Some(e) => Err(e),
        None => Ok(ret),
    }
}

/// Decodes a read result: the version field carries the error overload,
/// and on success the caller owns the value buffer.
pub fn decode_get_reply(reply: WireGetResult) -> (r: Result<(i64, Vec<u8>), OffkvError>)
    requires
        reply.version >= OFFKV_ENOMEM,
    ensures
        spec_from_error_code(reply.version) is Some ==> r == Err::<(i64, Vec<u8>), OffkvError>(
            spec_from_error_code(reply.version)->Some_0,
        ),
        spec_from_error_code(reply.version) is None ==> {
            &&& r is Ok
            &&& r->Ok_0.0 == reply.version
            &&& r->Ok_0.1@ == reply.value@
        },
{
    match from_error_code(reply.version) {
        Some(e) => Err(e),
        None => Ok((reply.version, reply.value)),
    }
}

/// Decodes a children result: a dedicated error code beside the decoded
/// key list, whose ownership passes to the caller on success.
pub fn decode_children_reply(reply: WireChildrenResult) -> (r: Result<Vec<String>, OffkvError>)
    requires
        reply.error_code >= OFFKV_ENOMEM,
    ensures
        spec_from_error_code(reply.error_code as i64) is Some ==> r == Err::<
            Vec<String>,
            OffkvError,
        >(spec_from_error_code(reply.error_code as i64)->Some_0),
        spec_from_error_code(reply.error_code as i64) is None ==> {
            &&& r is Ok
            &&& r->Ok_0@ == reply.keys@
        },
{
    match from_error_code(reply.error_code as i64) {
        Some(e) => Err(e),
        None => Ok(reply.keys),
    }
}

/// Decodes the out-parameter code of `open`.
pub fn decode_open_reply(error_code: i64) -> (r: Result<(), OffkvError>)
    requires
        error_code >= OFFKV_ENOMEM,
    ensures
        spec_from_error_code(error_code) is Some ==> r == Err::<(), OffkvError>(
            spec_from_error_code(error_code)->Some_0,
        ),
        spec_from_error_code(error_code) is None ==> r is Ok,
{
    match from_error_code(error_code) {
        Some(e) => Err(e),
        None => Ok(()),
    }
}

/// Validates a key locally, before anything crosses the boundary.
pub fn validate_key(key: &str) -> (r: Result<(), OffkvError>)
    ensures
        r is Ok <==> valid_key(key@),
        r is Err ==> r->Err_0 == OffkvError::InvalidKey,
{
    if crate::keys::check_key(key) {
        Ok(())
    } else {
        Err(OffkvError::InvalidKey)
    }
}

/// In a `cas` reply, version `0` is the sentinel for a failed compare, not
/// an error.
pub fn cas_failed(version: i64) -> (r: bool)
    ensures
        r == (version == 0),
{
    version == 0
}

/// In a write or erase call, expected version `0` asks for the
/// unconditional form.
pub fn is_unconditional(version: i64) -> (r: bool)
    ensures
        r == (version == 0),
{
    version == 0
}

/// In an `exists` reply, version `0` denotes that the key is absent.
pub fn denotes_absent(version: i64) -> (r: bool)
    ensures
        r == (version == 0),
{
    version == 0
}

} // verus!
