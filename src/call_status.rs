//! The out-of-band success / error / panic signal of one call.
use vstd::prelude::*;
use vstd::utf8::{decode_utf8, valid_utf8};
use crate::buffer::Buffer;
use crate::codec::{lift, lift_string, FfiConverter};
use crate::error::{CallError, InternalError};

verus! {

/// The call succeeded; its returned value is valid.
pub const CALL_SUCCESS: i8 = 0;

/// The call failed with an application error, serialized in the error buffer.
pub const CALL_ERROR: i8 = 1;

/// The native side trapped an internal fault; the error buffer may hold its message.
pub const CALL_UNEXPECTED_ERROR: i8 = 2;

/// The status slot filled in by one native call.
pub struct CallStatus {
    pub code: i8,
    pub error_buf: Buffer,
}

impl CallStatus {
    /// A zeroed slot, as allocated just before a call: success, no error bytes.
    pub fn new() -> (r: CallStatus)
        ensures
            r.code == CALL_SUCCESS,
            r.error_buf@.len() == 0,
    {
        CallStatus { code: CALL_SUCCESS, error_buf: Buffer::empty() }
    }
}

/// The internal error for a native panic whose error buffer is `buf`: the
/// message is the buffer's UTF-8 text, or absent when the buffer is empty.
fn panic_error(buf: &Buffer) -> (r: InternalError)
    ensures
        buf@.len() == 0 ==> r == InternalError::Panic(None),
        buf@.len() > 0 && valid_utf8(buf@) ==> (r matches InternalError::Panic(Some(msg)) && msg@
            == decode_utf8(buf@)),
        buf@.len() > 0 && !valid_utf8(buf@) ==> r == InternalError::MalformedValue,
{
    if buf.len() > 0 {
        match lift_string(buf) {
            Ok(msg) => InternalError::Panic(Some(msg)),
            Err(e) => e,
        }
    } else {
        InternalError::Panic(None)
    }
}

/// `e` is what a failed status with `code` and error bytes `bytes` raises
/// when no application error type is given: a reported application error is
/// unexpected; a panic carries its UTF-8 message, or none when the bytes are
/// empty; any other code is named in the error.
pub open spec fn internal_error_for(code: i8, bytes: Seq<u8>, e: InternalError) -> bool {
    if code == CALL_ERROR {
        e == InternalError::UnexpectedCallError
    } else if code == CALL_UNEXPECTED_ERROR {
        if bytes.len() == 0 {
            e == InternalError::Panic(None)
        } else if valid_utf8(bytes) {
            e matches InternalError::Panic(Some(msg)) && msg@ == decode_utf8(bytes)
        } else {
            e == InternalError::MalformedValue
        }
    } else {
        e == InternalError::UnexpectedCallStatusCode(code)
    }
}

/// Checks a status with no application error type. On success the error
/// buffer is never looked at; an application error is released undecoded.
/// The status, and with it the error buffer, is released on every path.
pub fn check_call_status(status: CallStatus) -> (r: Result<(), InternalError>)
    ensures
        r is Ok <==> status.code == CALL_SUCCESS,
        r matches Err(e) ==> internal_error_for(status.code, status.error_buf@, e),
{
    let CallStatus { code, error_buf } = status;
    if code == CALL_SUCCESS {
        Ok(())
    } else if code == CALL_ERROR {
        error_buf.free();
        Err(InternalError::UnexpectedCallError)
    } else if code == CALL_UNEXPECTED_ERROR {
        let e = panic_error(&error_buf);
        error_buf.free();
        Err(e)
    } else {
        Err(InternalError::UnexpectedCallStatusCode(code))
    }
}

/// Checks a status whose application errors are values of `E`, decoded from
/// the error buffer with `E`'s codec. Other codes are handled as by
/// `check_call_status`, wrapped as internal errors.
pub fn check_call_status_with<E: FfiConverter>(status: CallStatus) -> (r: Result<(), CallError<E>>)
    ensures
        r is Ok <==> status.code == CALL_SUCCESS,
        r matches Err(CallError::Application(e)) ==> status.code == CALL_ERROR && E::encodable(e.model())
            && status.error_buf@ == E::wire(e.model()),
        status.code == CALL_ERROR ==> forall|m: E::Model|
            E::encodable(m) && status.error_buf@ == #[trigger] E::wire(m) ==> (r matches Err(
                CallError::Application(e),
            ) && e.model() == m),
        status.code != CALL_ERROR ==> (r matches Err(CallError::Internal(e)) ==> internal_error_for(
            status.code,
            status.error_buf@,
            e,
        )),
{
    let CallStatus { code, error_buf } = status;
    if code == CALL_SUCCESS {
        Ok(())
    } else if code == CALL_ERROR {
        let decoded = lift::<E>(&error_buf);
        error_buf.free();
        match decoded {
            Ok(e) => Err(CallError::Application(e)),
            Err(ie) => Err(CallError::Internal(ie)),
        }
    } else if code == CALL_UNEXPECTED_ERROR {
        let e = panic_error(&error_buf);
        error_buf.free();
        Err(CallError::Internal(e))
    } else {
        Err(CallError::Internal(InternalError::UnexpectedCallStatusCode(code)))
    }
}

/// Finishes a status-checked call: the value the native function returned is
/// handed back exactly when the status reports success.
pub fn finish_call<T>(result: T, status: CallStatus) -> (r: Result<T, InternalError>)
    ensures
        r is Ok <==> status.code == CALL_SUCCESS,
        r matches Ok(v) ==> v == result,
        r matches Err(e) ==> internal_error_for(status.code, status.error_buf@, e),
{
    match check_call_status(status) {
        Ok(()) => Ok(result),
        Err(e) => Err(e),
    }
}

/// Like `finish_call`, with application errors decoded as values of `E`.
pub fn finish_call_with<T, E: FfiConverter>(result: T, status: CallStatus) -> (r: Result<T, CallError<E>>)
    ensures
        r is Ok <==> status.code == CALL_SUCCESS,
        r matches Ok(v) ==> v == result,
        r matches Err(CallError::Application(e)) ==> status.code == CALL_ERROR && E::encodable(e.model())
            && status.error_buf@ == E::wire(e.model()),
        status.code == CALL_ERROR ==> forall|m: E::Model|
            E::encodable(m) && status.error_buf@ == #[trigger] E::wire(m) ==> (r matches Err(
                CallError::Application(e),
            ) && e.model() == m),
        status.code != CALL_ERROR ==> (r matches Err(CallError::Internal(e)) ==> internal_error_for(
            status.code,
            status.error_buf@,
            e,
        )),
{
    match check_call_status_with::<E>(status) {
        Ok(()) => Ok(result),
        Err(e) => Err(e),
    }
}

} // verus!
