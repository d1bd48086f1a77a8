use geck::link::{
    classify_failure, client_read_step, notifies_after_removal, notifies_before_removal, server_read_step, ClientRead,
    CloseNotice, ReadErrorKind, ReadResult, ServerRead, StopReason, READ_RETRY_DELAY_MS,
};

const FORCED: &str = "An existing connection was forcibly closed by the remote host. (os error 10054)";

fn failed(kind: ReadErrorKind, text: &str) -> ReadResult {
    ReadResult::Failed { kind, text: text.to_string() }
}

#[test]
fn failure_classification() {
    assert_eq!(classify_failure(ReadErrorKind::ConnectionAborted, ""), Some(StopReason::Aborted));
    assert_eq!(classify_failure(ReadErrorKind::ConnectionRefused, ""), Some(StopReason::Refused));
    assert_eq!(classify_failure(ReadErrorKind::UnexpectedEof, ""), Some(StopReason::UnexpectedEof));
    assert_eq!(classify_failure(ReadErrorKind::Other, FORCED), Some(StopReason::ForciblyClosed));
    assert_eq!(classify_failure(ReadErrorKind::Other, "timed out"), None);
    assert_eq!(classify_failure(ReadErrorKind::Other, "forcibly closed"), None);
}

#[test]
fn client_read_outcomes() {
    let buf = vec![1u8, 2, 3, 4, 5];
    assert!(matches!(client_read_step(ReadResult::Read(0), buf.clone()), ClientRead::Stop(StopReason::ClosedByPeer)));
    match client_read_step(ReadResult::Read(3), buf.clone()) {
        ClientRead::Deliver(b) => assert_eq!(b, vec![1, 2, 3]),
        _ => panic!("expected delivery"),
    }
    match client_read_step(ReadResult::Read(9), buf.clone()) {
        ClientRead::Deliver(b) => assert_eq!(b, buf),
        _ => panic!("expected delivery"),
    }
    assert!(matches!(
        client_read_step(failed(ReadErrorKind::UnexpectedEof, ""), buf.clone()),
        ClientRead::Stop(StopReason::UnexpectedEof)
    ));
    assert!(matches!(
        client_read_step(failed(ReadErrorKind::Other, FORCED), buf.clone()),
        ClientRead::Stop(StopReason::ForciblyClosed)
    ));
    assert!(matches!(
        client_read_step(failed(ReadErrorKind::Other, "would block"), buf),
        ClientRead::RetryAfterMs(500)
    ));
    assert_eq!(READ_RETRY_DELAY_MS, 500);
}

#[test]
fn server_read_outcomes_addressed() {
    let buf = vec![9u8; 8];
    assert!(matches!(
        server_read_step(true, ReadResult::Read(0), buf.clone()),
        ServerRead::Close { reason: StopReason::ClosedByPeer, notice: CloseNotice::Never }
    ));
    match server_read_step(true, ReadResult::Read(2), buf.clone()) {
        ServerRead::Forward(b) => assert_eq!(b, vec![9, 9]),
        _ => panic!("expected forward"),
    }
    assert!(matches!(
        server_read_step(true, failed(ReadErrorKind::ConnectionAborted, ""), buf.clone()),
        ServerRead::Close { reason: StopReason::Aborted, notice: CloseNotice::IfUnlisted }
    ));
    assert!(matches!(
        server_read_step(true, failed(ReadErrorKind::ConnectionRefused, ""), buf.clone()),
        ServerRead::Close { reason: StopReason::Refused, notice: CloseNotice::IfUnlisted }
    ));
    assert!(matches!(
        server_read_step(true, failed(ReadErrorKind::Other, FORCED), buf.clone()),
        ServerRead::Close { reason: StopReason::ForciblyClosed, notice: CloseNotice::Always }
    ));
    assert!(matches!(
        server_read_step(true, failed(ReadErrorKind::Other, "interrupted"), buf),
        ServerRead::RetryAfterMs(500)
    ));
}

#[test]
fn server_read_outcomes_broadcast() {
    let buf = vec![7u8; 4];
    match server_read_step(false, ReadResult::Read(1), buf.clone()) {
        ServerRead::Forward(b) => assert_eq!(b, buf),
        _ => panic!("expected forward"),
    }
    assert!(matches!(
        server_read_step(false, ReadResult::Read(0), buf.clone()),
        ServerRead::Close { reason: StopReason::ClosedByPeer, notice: CloseNotice::Never }
    ));
    assert!(matches!(
        server_read_step(false, failed(ReadErrorKind::ConnectionAborted, ""), buf),
        ServerRead::RetryAfterMs(0)
    ));
}

#[test]
fn close_notice_rules() {
    assert!(!notifies_before_removal(CloseNotice::Never));
    assert!(!notifies_after_removal(CloseNotice::Never, true));
    assert!(!notifies_after_removal(CloseNotice::Never, false));
    assert!(!notifies_before_removal(CloseNotice::IfUnlisted));
    assert!(!notifies_after_removal(CloseNotice::IfUnlisted, true));
    assert!(notifies_after_removal(CloseNotice::IfUnlisted, false));
    assert!(notifies_before_removal(CloseNotice::Always));
    assert!(!notifies_after_removal(CloseNotice::Always, true));
    assert!(!notifies_after_removal(CloseNotice::Always, false));
}
