use ffi_bridge::async_call::{Action, AsyncSession, Phase, POLL_MAYBE_READY, POLL_READY};
use ffi_bridge::buffer::Buffer;
use ffi_bridge::call_status::CallStatus;
use ffi_bridge::codec::lower;
use ffi_bridge::error::{CallError, InternalError};

#[test]
fn ready_at_first_poll_resolves_with_completion_value() {
    let mut s = AsyncSession::new();
    assert_eq!(s.phase(), Phase::Started);
    assert_eq!(s.begin(), Action::Poll);
    assert_eq!(s.on_poll_result(POLL_READY), Action::Complete);
    assert_eq!(s.phase(), Phase::Ready);
    assert_eq!(s.complete(99i32, CallStatus::new()), Ok(99));
    assert_eq!(s.phase(), Phase::Completed);
    assert_eq!(s.release(), Action::Done);
    assert_eq!(s.polls(), 1);
    assert_eq!(s.releases(), 1);
}

#[test]
fn not_ready_n_times_polls_n_plus_one_times() {
    let n = 3;
    let mut s = AsyncSession::new();
    let mut action = s.begin();
    let mut results = vec![POLL_MAYBE_READY; n];
    results.push(POLL_READY);
    for r in results {
        assert_eq!(action, Action::Poll);
        action = s.on_poll_result(r);
    }
    assert_eq!(action, Action::Complete);
    assert_eq!(s.complete((), CallStatus::new()), Ok(()));
    assert_eq!(s.release(), Action::Done);
    assert_eq!(s.polls(), n as u64 + 1);
    assert_eq!(s.releases(), 1);
    assert_eq!(s.phase(), Phase::Released);
}

#[test]
fn release_follows_an_application_error() {
    let mut s = AsyncSession::new();
    s.begin();
    s.on_poll_result(POLL_READY);
    let status = CallStatus { code: 1, error_buf: lower(&"nope".to_string()) };
    let r = s.complete_with::<u8, String>(0, status);
    assert_eq!(r, Err(CallError::Application("nope".to_string())));
    assert_eq!(s.phase(), Phase::Completed);
    assert_eq!(s.release(), Action::Done);
    assert_eq!(s.releases(), 1);
}

#[test]
fn release_follows_a_panic() {
    let mut s = AsyncSession::new();
    s.begin();
    s.on_poll_result(POLL_MAYBE_READY);
    s.on_poll_result(POLL_READY);
    let status = CallStatus { code: 2, error_buf: Buffer::empty() };
    assert_eq!(s.complete(5u8, status), Err(InternalError::Panic(None)));
    assert_eq!(s.release(), Action::Done);
    assert_eq!(s.polls(), 2);
    assert_eq!(s.releases(), 1);
}
