use perf_testing::outcome::{Completion, ErrorKind, StatusClass, TransportFailure};

#[test]
fn class_of_each_status_range() {
    let expected = [
        (0u16, StatusClass::Unassigned),
        (99, StatusClass::Unassigned),
        (100, StatusClass::Informational),
        (199, StatusClass::Informational),
        (200, StatusClass::Success),
        (204, StatusClass::Success),
        (299, StatusClass::Success),
        (300, StatusClass::Redirection),
        (399, StatusClass::Redirection),
        (400, StatusClass::ClientError),
        (499, StatusClass::ClientError),
        (500, StatusClass::ServerError),
        (599, StatusClass::ServerError),
        (600, StatusClass::Unassigned),
        (u16::MAX, StatusClass::Unassigned),
    ];
    for (code, class) in expected {
        assert_eq!(Completion::Status(code).class(), class, "status {}", code);
    }
}

#[test]
fn class_of_every_transport_failure_is_transport_error() {
    let kinds = [
        ErrorKind::Timeout,
        ErrorKind::ConnectionRefused,
        ErrorKind::ConnectionReset,
        ErrorKind::MalformedResponse,
        ErrorKind::Other,
    ];
    for kind in kinds {
        assert_eq!(Completion::Failed(kind).class(), StatusClass::TransportError);
        assert!(!Completion::Failed(kind).is_success());
    }
}

#[test]
fn only_a_status_from_200_to_299_is_a_success() {
    assert!(!Completion::Status(199).is_success());
    assert!(Completion::Status(200).is_success());
    assert!(Completion::Status(299).is_success());
    assert!(!Completion::Status(300).is_success());
    assert!(!Completion::Status(404).is_success());
    assert!(!Completion::Status(500).is_success());
}

fn failure(timed_out: bool, connecting: bool, receiving: bool, sending: bool) -> TransportFailure {
    TransportFailure { timed_out, connecting, receiving, sending }
}

#[test]
fn kind_of_a_failure_told_in_one_way() {
    assert_eq!(failure(true, false, false, false).kind(), ErrorKind::Timeout);
    assert_eq!(failure(false, true, false, false).kind(), ErrorKind::ConnectionRefused);
    assert_eq!(failure(false, false, true, false).kind(), ErrorKind::MalformedResponse);
    assert_eq!(failure(false, false, false, true).kind(), ErrorKind::ConnectionReset);
    assert_eq!(failure(false, false, false, false).kind(), ErrorKind::Other);
}

#[test]
fn kind_of_a_failure_told_in_several_ways_is_the_first_that_fits() {
    assert_eq!(failure(true, true, true, true).kind(), ErrorKind::Timeout);
    assert_eq!(failure(true, true, false, false).kind(), ErrorKind::Timeout);
    assert_eq!(failure(false, true, true, true).kind(), ErrorKind::ConnectionRefused);
    assert_eq!(failure(false, true, false, true).kind(), ErrorKind::ConnectionRefused);
    assert_eq!(failure(false, false, true, true).kind(), ErrorKind::MalformedResponse);
}
