use ffi_bridge::buffer::Buffer;
use ffi_bridge::call_status::{check_call_status, check_call_status_with, finish_call, finish_call_with, CallStatus};
use ffi_bridge::codec::{lower, lower_string};
use ffi_bridge::error::{CallError, InternalError};

#[test]
fn success_ignores_error_buffer() {
    let status = CallStatus { code: 0, error_buf: lower_string("junk") };
    assert_eq!(check_call_status(status), Ok(()));
    let status = CallStatus { code: 0, error_buf: Buffer::from_bytes(&[0xff]) };
    assert_eq!(check_call_status_with::<String>(status), Ok(()));
}

#[test]
fn unexpected_error_carries_message() {
    let status = CallStatus { code: 2, error_buf: lower_string("boom") };
    assert_eq!(check_call_status(status), Err(InternalError::Panic(Some("boom".to_string()))));
    let status = CallStatus { code: 2, error_buf: lower_string("boom") };
    assert_eq!(
        finish_call_with::<u8, String>(1, status),
        Err(CallError::Internal(InternalError::Panic(Some("boom".to_string()))))
    );
}

#[test]
fn unexpected_error_without_message() {
    let status = CallStatus { code: 2, error_buf: Buffer::empty() };
    assert_eq!(check_call_status(status), Err(InternalError::Panic(None)));
}

#[test]
fn unexpected_error_with_bad_text() {
    let status = CallStatus { code: 2, error_buf: Buffer::from_bytes(&[0xff]) };
    assert_eq!(check_call_status(status), Err(InternalError::MalformedValue));
}

#[test]
fn application_error_without_handler() {
    let status = CallStatus { code: 1, error_buf: lower(&"bad".to_string()) };
    assert_eq!(check_call_status(status), Err(InternalError::UnexpectedCallError));
}

#[test]
fn application_error_is_decoded() {
    let status = CallStatus { code: 1, error_buf: lower(&"bad".to_string()) };
    assert_eq!(check_call_status_with::<String>(status), Err(CallError::Application("bad".to_string())));
    let status = CallStatus { code: 1, error_buf: lower(&7u32) };
    assert_eq!(finish_call_with::<bool, u32>(true, status), Err(CallError::Application(7)));
}

#[test]
fn undecodable_application_error() {
    let status = CallStatus { code: 1, error_buf: Buffer::from_bytes(&[0, 0]) };
    assert_eq!(check_call_status_with::<u32>(status), Err(CallError::Internal(InternalError::IncompleteData)));
}

#[test]
fn unknown_status_code() {
    let status = CallStatus { code: 7, error_buf: Buffer::empty() };
    assert_eq!(check_call_status(status), Err(InternalError::UnexpectedCallStatusCode(7)));
    let status = CallStatus { code: -1, error_buf: Buffer::empty() };
    assert_eq!(
        check_call_status_with::<u8>(status),
        Err(CallError::Internal(InternalError::UnexpectedCallStatusCode(-1)))
    );
}

#[test]
fn finish_call_hands_back_value() {
    assert_eq!(finish_call(42u64, CallStatus::new()), Ok(42));
    let status = CallStatus { code: 1, error_buf: Buffer::empty() };
    assert_eq!(finish_call(42u64, status), Err(InternalError::UnexpectedCallError));
}
