use vstd::prelude::*;

use crate::ids::MetricId;
use crate::sensor::Metric;

verus! {

/// A pushed metric value. A double is held as its IEEE 754 bit pattern.
#[derive(Clone, Debug, PartialEq)]
pub enum MetricValue {
    Integer(i64),
    Double(u64),
    String(String),
    Boolean(bool),
}

impl MetricValue {
    pub fn copy(&self) -> (r: MetricValue)
        ensures
            r == *self,
    {
        match self {
            MetricValue::Integer(v) => MetricValue::Integer(*v),
            MetricValue::Double(v) => MetricValue::Double(*v),
            MetricValue::String(v) => MetricValue::String(v.clone()),
            MetricValue::Boolean(v) => MetricValue::Boolean(*v),
        }
    }
}

/// Ids of created metrics, paired with the request's metrics by position.
#[derive(Clone, Copy, Debug, PartialEq, Eq, Structural)]
pub struct CreateMetricResponsePayload {
    pub matching_id: usize,
    pub metric_id: MetricId,
}

/// A remote error reply.
#[derive(Debug, PartialEq)]
pub struct ErrorResponse {
    pub message: String,
    pub code: i32,
}

/// A batch of items under `metrics`, with the time of the batch.
#[derive(Debug, PartialEq)]
pub struct MetricsArrayResponse<T> {
    pub metrics: Vec<T>,
    pub timestamp: Option<u64>,
}

/// One value of a livedata push.
#[derive(Debug, PartialEq)]
pub struct PushMetricValueResponse {
    pub metric_id: MetricId,
    pub value: MetricValue,
}

/// Body of a sensor creation.
#[derive(Debug, PartialEq)]
pub struct CreateSensorRequest {
    pub name: String,
}

/// Body of a sensor update.
#[derive(Debug, PartialEq)]
pub struct UpdateSensorRequest {
    pub name: String,
    pub state: Option<u8>,
}

/// A batch request: its items under `metrics`.
#[derive(Debug, PartialEq)]
pub struct MetricsArrayRequest<T> {
    pub metrics: Vec<T>,
}

impl<T> MetricsArrayRequest<T> {
    pub fn one(metric: T) -> (r: Self)
        ensures
            r.metrics@ == seq![metric],
    {
        let r = MetricsArrayRequest { metrics: vec![metric] };
        proof {
            assert(r.metrics@ =~= seq![metric]);
        }
        r
    }

    pub fn many(metrics: Vec<T>) -> (r: Self)
        ensures
            r.metrics == metrics,
    {
        MetricsArrayRequest { metrics }
    }
}

/// One metric of a creation request, tagged with its position.
#[derive(Debug, PartialEq)]
pub struct CreateMetricPayload {
    pub metric: Metric,
    pub matching_id: usize,
}

/// Body of a metric update: only the fields that change.
#[derive(Debug, PartialEq)]
pub struct UpdateMetricRequest {
    pub metric_id: MetricId,
    pub name: Option<String>,
    pub value_annotation: Option<String>,
}

#[derive(Debug, PartialEq)]
pub struct DeleteMetricRequest {
    pub metric_id: MetricId,
}

/// One value pushed to a metric, at an optional time (milliseconds since the epoch).
#[derive(Debug, PartialEq)]
pub struct PushMetricValueRequest {
    pub metric_id: MetricId,
    pub value: MetricValue,
    pub timestamp: Option<u64>,
}

#[derive(Debug, PartialEq)]
pub struct PingRequest {
    pub request: String,
}

#[derive(Debug, PartialEq)]
pub struct PingResponse {
    pub answer: String,
}

/// The creation request for `metrics`: each tagged with its position,
/// counting from one, by which the reply pairs the assigned ids.
pub fn create_metrics_request(metrics: &Vec<Metric>) -> (r: MetricsArrayRequest<CreateMetricPayload>)
    requires
        metrics@.len() < usize::MAX,
    ensures
        r.metrics@.len() == metrics@.len(),
        forall|i: int|
            0 <= i < metrics@.len() ==> (#[trigger] r.metrics@[i]).metric == metrics@[i]
                && r.metrics@[i].matching_id == i + 1,
{
    let mut items: Vec<CreateMetricPayload> = Vec::new();
    let mut i: usize = 0;
    while i < metrics.len()
        invariant
            0 <= i <= metrics@.len() < usize::MAX,
            items@.len() == i,
            forall|k: int|
                0 <= k < i ==> (#[trigger] items@[k]).metric == metrics@[k] && items@[k].matching_id
                    == k + 1,
        decreases metrics@.len() - i,
    {
        items.push(CreateMetricPayload { metric: metrics[i].copy(), matching_id: i + 1 });
        i += 1;
    }
    MetricsArrayRequest::many(items)
}

/// The connection check request.
pub fn ping_request() -> (r: PingRequest)
    ensures
        r.request@ == "Ping!"@,
{
    PingRequest { request: String::from_str("Ping!") }
}

/// Whether a ping reply echoes the request.
pub fn ping_answered(response: &PingResponse) -> (r: bool)
    ensures
        r == (response.answer@ == "Ping!"@),
{
    response.answer == String::from_str("Ping!")
}

} // verus!
