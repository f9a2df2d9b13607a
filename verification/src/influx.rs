//! The write-path encoding of a metric sample into the time-series store's
//! point representation.  Only the construction of the outside `DataPoint`
//! value is trusted; the nanosecond conversion and the error mapping around
//! it are verified.

use vstd::prelude::*;
use crate::model::{spec_status_label, status_label, MetricSample};

verus! {

#[verifier::external_type_specification]
#[verifier::external_body]
pub struct ExDataPoint(influxdb2::models::DataPoint);

#[verifier::external_type_specification]
#[verifier::external_body]
pub struct ExDataPointError(influxdb2::models::data_point::DataPointError);

/// The store point the builder constructs: a function of the measurement,
/// the three tag pairs, the one integer field and the timestamp, and of
/// nothing else.
pub uninterp spec fn built_point(
    measurement: Seq<char>,
    tag1: Seq<char>,
    value1: Seq<char>,
    tag2: Seq<char>,
    value2: Seq<char>,
    tag3: Seq<char>,
    value3: Seq<char>,
    field: Seq<char>,
    field_value: i64,
    timestamp_ns: i64,
) -> influxdb2::models::DataPoint;

/// Relies on influxdb2's `DataPoint` builder (`DataPoint::builder`, `tag`,
/// `field`, `timestamp`, `build`): the point is built from exactly the
/// given measurement, tags, field and timestamp — named `built_point`, a
/// deterministic function of these arguments alone — and `build` fails only
/// on a point without fields; one field is always set here, so the result
/// is `Ok`.
#[verifier::external_body]
fn build_point(
    measurement: &str,
    tag1: &str,
    value1: &str,
    tag2: &str,
    value2: &str,
    tag3: &str,
    value3: &str,
    field: &str,
    field_value: i64,
    timestamp_ns: i64,
) -> (r: Result<influxdb2::models::DataPoint, influxdb2::models::data_point::DataPointError>)
    ensures
        r is Ok,
        r->Ok_0 == built_point(
            measurement@,
            tag1@,
            value1@,
            tag2@,
            value2@,
            tag3@,
            value3@,
            field@,
            field_value,
            timestamp_ns,
        ),
{
    influxdb2::models::DataPoint::builder(measurement)
        .tag(tag1, value1)
        .tag(tag2, value2)
        .tag(tag3, value3)
        .field(field, field_value)
        .timestamp(timestamp_ns)
        .build()
}

/// Failure of the write-path encoding.
#[derive(Clone, Copy, Debug, PartialEq, Eq, Structural)]
pub enum EncodeError {
    /// The sample's millisecond timestamp has no nanosecond representation
    /// in the store's 64-bit timestamp.
    TimestampOutOfRange,
}

/// Encodes one metric sample as the store's point: measurement
/// `website_tick`, tags {website_id, region_id, status}, field
/// `response_time_ms`, timestamped at the sample's time in nanoseconds.
/// Fails exactly when the nanosecond timestamp leaves the 64-bit range.
pub fn encode_sample(s: &MetricSample) -> (r: Result<
    influxdb2::models::DataPoint,
    EncodeError,
>)
    ensures
        r is Ok <==> i64::MIN <= s.timestamp_ms * 1_000_000 <= i64::MAX,
        r is Ok ==> r->Ok_0 == built_point(
            "website_tick"@,
            "website_id"@,
            s.target_id@,
            "region_id"@,
            s.region_id@,
            "status"@,
            spec_status_label(s.status),
            "response_time_ms"@,
            s.latency_ms,
            (s.timestamp_ms * 1_000_000) as i64,
        ),
{
    let ns = match s.timestamp_ms.checked_mul(1_000_000) {
        Option::Some(v) => v,
        Option::None => {
            return Result::Err(EncodeError::TimestampOutOfRange);
        },
    };
    let point = build_point(
        "website_tick",
        "website_id",
        s.target_id.as_str(),
        "region_id",
        s.region_id.as_str(),
        "status",
        status_label(s.status),
        "response_time_ms",
        s.latency_ms,
        ns,
    );
    match point {
        Result::Ok(p) => Result::Ok(p),
        // Unreachable: the builder fails only without a field, and one is
        // always set.
        Result::Err(_) => Result::Err(EncodeError::TimestampOutOfRange),
    }
}

} // verus!
