//! Response shapes of the service and the small decisions behind them:
//! health and readiness reports, the success/failure envelope, and the
//! best-effort decoding policy. The transport layer serializes these and
//! maps them to status codes.

use vstd::prelude::*;
use vstd::string::StringExecFns;

use crate::errors::VendingError;
use crate::range::resolve_date_range;

verus! {

/// Liveness report: always "UP" while the process runs.
pub struct HealthResponse {
    pub status: String,
    pub timestamp: u64,
    pub service: String,
    pub version: String,
}

/// Readiness report: ready exactly when the storage probe succeeded.
pub struct ReadinessResponse {
    pub status: String,
    pub timestamp: u64,
    pub service: String,
    pub version: String,
    pub database: DatabaseHealth,
}

/// Structured sub-status of the storage dependency.
pub struct DatabaseHealth {
    pub status: String,
    pub connected: bool,
}

/// The optional date-range query of the record and summary endpoints.
pub struct DateRangeQuery {
    pub start_date: Option<String>,
    pub end_date: Option<String>,
}

/// The uniform success/failure envelope of the record endpoints.
pub struct ApiResponse<T> {
    pub success: bool,
    pub message: String,
    pub data: Option<T>,
}

impl HealthResponse {
    /// The liveness report at the given instant.
    pub fn up(timestamp: u64, version: String) -> (r: HealthResponse)
        ensures
            r.status@ == "UP"@,
            r.service@ == "jep-rs"@,
            r.timestamp == timestamp,
            r.version == version,
    {
        HealthResponse {
            status: String::from_str("UP"),
            timestamp: timestamp,
            service: String::from_str("jep-rs"),
            version: version,
        }
    }
}

impl DatabaseHealth {
    /// The storage sub-status a probe outcome reports.
    pub fn from_probe(connected: bool) -> (r: DatabaseHealth)
        ensures
            r.connected == connected,
            r.status@ == (if connected {
                "UP"@
            } else {
                "DOWN"@
            }),
    {
        DatabaseHealth {
            status: if connected {
                String::from_str("UP")
            } else {
                String::from_str("DOWN")
            },
            connected: connected,
        }
    }
}

impl ReadinessResponse {
    /// The readiness report a probe outcome yields: "READY" with an "UP"
    /// storage sub-status exactly when the probe succeeded, "NOT_READY"
    /// with "DOWN" otherwise — a failed probe is reported, never thrown.
    pub fn from_probe(connected: bool, timestamp: u64, version: String) -> (r: ReadinessResponse)
        ensures
            r.status@ == (if connected {
                "READY"@
            } else {
                "NOT_READY"@
            }),
            r.database.connected == connected,
            r.database.status@ == (if connected {
                "UP"@
            } else {
                "DOWN"@
            }),
            r.service@ == "jep-rs"@,
            r.timestamp == timestamp,
            r.version == version,
    {
        ReadinessResponse {
            status: if connected {
                String::from_str("READY")
            } else {
                String::from_str("NOT_READY")
            },
            timestamp: timestamp,
            service: String::from_str("jep-rs"),
            version: version,
            database: DatabaseHealth::from_probe(connected),
        }
    }

    /// Whether the transport layer should answer "service available".
    pub fn is_ready(&self) -> (b: bool)
        ensures
            b == self.database.connected,
    {
        self.database.connected
    }
}

impl<T> ApiResponse<T> {
    /// The success envelope around a payload.
    pub fn ok(message: String, data: T) -> (r: ApiResponse<T>)
        ensures
            r.success,
            r.message == message,
            r.data == Some(data),
    {
        ApiResponse { success: true, message: message, data: Some(data) }
    }

    /// The failure envelope: no payload leaves the server.
    pub fn failure(message: String) -> (r: ApiResponse<T>)
        ensures
            !r.success,
            r.message == message,
            r.data is None,
    {
        ApiResponse { success: false, message: message, data: None }
    }
}

impl DateRangeQuery {
    /// Resolve this query against the current instant, as
    /// `resolve_date_range` does.
    pub fn resolve(&self, now_millis: i64) -> (r: Result<(i64, i64), VendingError>)
        requires
            now_millis >= i64::MIN + crate::range::DEFAULT_LOOKBACK_MILLIS,
        ensures
            r is Ok <==> ((self.start_date matches Some(s) ==> crate::range::spec_parse_flexible(
                s@,
                false,
            ) is Some) && (self.end_date matches Some(s) ==> crate::range::spec_parse_flexible(
                s@,
                true,
            ) is Some)),
            r matches Ok(range) ==> (match self.start_date {
                Some(s) => crate::range::spec_parse_flexible(s@, false) == Some(range.0 as int),
                None => range.0 == now_millis - crate::range::DEFAULT_LOOKBACK_MILLIS,
            }),
            r matches Ok(range) ==> (match self.end_date {
                Some(s) => crate::range::spec_parse_flexible(s@, true) == Some(range.1 as int),
                None => range.1 == now_millis,
            }),
            r matches Err(e) ==> e matches VendingError::InvalidDateFormat { .. },
    {
        resolve_date_range(self.start_date.as_ref(), self.end_date.as_ref(), now_millis)
    }
}

/// The best-effort decoding policy: individually malformed stored
/// documents are skipped and counted, and the count is returned for
/// logging; only a batch where something failed and nothing decoded is a
/// hard error.
pub fn decode_outcome(decoded: usize, failed: usize) -> (r: Result<usize, VendingError>)
    ensures
        r is Ok <==> (decoded > 0 || failed == 0),
        r matches Ok(n) ==> n == failed,
        r matches Err(e) ==> e matches VendingError::PartialDecodeFailure { count } && count
            == failed,
{
    if decoded == 0 && failed > 0 {
        Err(VendingError::PartialDecodeFailure { count: failed })
    } else {
        Ok(failed)
    }
}

} // verus!
