use jep_rs::api::{decode_outcome, ApiResponse, DatabaseHealth, DateRangeQuery, HealthResponse, ReadinessResponse};
use jep_rs::errors::VendingError;

#[test]
fn liveness_always_reports_up() {
    let h = HealthResponse::up(1_700_000_000, "0.1.0".to_string());
    assert_eq!(h.status, "UP");
    assert_eq!(h.service, "jep-rs");
    assert_eq!(h.timestamp, 1_700_000_000);
    assert_eq!(h.version, "0.1.0");
}

#[test]
fn readiness_reflects_a_successful_probe() {
    let r = ReadinessResponse::from_probe(true, 7, "0.1.0".to_string());
    assert_eq!(r.status, "READY");
    assert_eq!(r.database.status, "UP");
    assert!(r.database.connected);
    assert!(r.is_ready());
}

#[test]
fn readiness_reports_a_failed_probe_without_throwing() {
    let r = ReadinessResponse::from_probe(false, 7, "0.1.0".to_string());
    assert_eq!(r.status, "NOT_READY");
    assert_eq!(r.database.status, "DOWN");
    assert!(!r.database.connected);
    assert!(!r.is_ready());
}

#[test]
fn database_health_from_probe() {
    assert_eq!(DatabaseHealth::from_probe(true).status, "UP");
    assert_eq!(DatabaseHealth::from_probe(false).status, "DOWN");
}

#[test]
fn success_envelope_carries_the_payload() {
    let r = ApiResponse::ok("done".to_string(), 42u32);
    assert!(r.success);
    assert_eq!(r.message, "done");
    assert_eq!(r.data, Some(42));
}

#[test]
fn failure_envelope_carries_no_payload() {
    let r: ApiResponse<u32> = ApiResponse::failure("broken".to_string());
    assert!(!r.success);
    assert_eq!(r.data, None);
}

#[test]
fn query_resolution_matches_the_resolver() {
    let q = DateRangeQuery {
        start_date: Some("2024-01-01".to_string()),
        end_date: Some("2024-01-01".to_string()),
    };
    let (start, end) = q.resolve(0).unwrap();
    assert_eq!(start, 1_704_067_200_000);
    assert_eq!(end, 1_704_067_200_000 + 86_399_999);
}

#[test]
fn query_resolution_rejects_bad_input() {
    let q = DateRangeQuery { start_date: Some("bogus".to_string()), end_date: None };
    assert!(matches!(
        q.resolve(0),
        Err(VendingError::InvalidDateFormat { .. })
    ));
}

#[test]
fn decoding_tolerates_partial_failures() {
    assert_eq!(decode_outcome(10, 0).unwrap(), 0);
    assert_eq!(decode_outcome(8, 2).unwrap(), 2);
    assert_eq!(decode_outcome(0, 0).unwrap(), 0);
}

#[test]
fn decoding_fails_when_nothing_decodes() {
    match decode_outcome(0, 3) {
        Err(VendingError::PartialDecodeFailure { count }) => assert_eq!(count, 3),
        _ => panic!("expected PartialDecodeFailure"),
    }
}

#[test]
fn storage_failure_keeps_its_cause() {
    let e = VendingError::StorageFailure { cause: "connection reset".to_string() };
    match e {
        VendingError::StorageFailure { cause } => assert_eq!(cause, "connection reset"),
        _ => panic!("expected StorageFailure"),
    }
}
