use vstd::prelude::*;

use crate::ids::{MetricId, SensorId};
use crate::protocol::{
    CreateMetricPayload, CreateSensorRequest, DeleteMetricRequest, MetricValue,
    MetricsArrayRequest, PingRequest, PushMetricValueRequest, UpdateMetricRequest,
    UpdateSensorRequest, create_metrics_request, ping_request,
};
use crate::sensor::Metric;
use crate::topic::MqttScheme;

verus! {

/// The body of an outgoing message.
#[derive(Debug, PartialEq)]
pub enum RequestBody {
    /// No body of its own: an empty JSON object goes out.
    Empty,
    Ping(PingRequest),
    CreateSensor(CreateSensorRequest),
    UpdateSensor(UpdateSensorRequest),
    CreateMetrics(MetricsArrayRequest<CreateMetricPayload>),
    UpdateMetric(MetricsArrayRequest<UpdateMetricRequest>),
    DeleteMetric(MetricsArrayRequest<DeleteMetricRequest>),
    PushValue(MetricsArrayRequest<PushMetricValueRequest>),
}

/// A message to publish on the action topic of `scheme`.
#[derive(Debug, PartialEq)]
pub struct OutgoingRequest {
    pub scheme: MqttScheme,
    pub body: RequestBody,
}

/// Checks the connection: a ping that the server echoes.
#[derive(Debug, PartialEq)]
pub struct PingTest;

#[derive(Debug, PartialEq)]
pub struct CreateSensor {
    pub name: String,
}

#[derive(Debug, PartialEq)]
pub struct UpdateSensor {
    pub sensor_id: SensorId,
    pub name: String,
    pub state: Option<bool>,
}

#[derive(Debug, PartialEq)]
pub struct DeleteSensor {
    pub sensor_id: SensorId,
}

/// Asks for the mirror, to be written out.
#[derive(Debug, PartialEq)]
pub struct DumpSensors;

/// Asks the server for the sensor list.
#[derive(Debug, PartialEq)]
pub struct LoadSensors;

#[derive(Debug, PartialEq)]
pub struct CreateMetrics {
    pub sensor_id: SensorId,
    pub metrics: Vec<Metric>,
}

#[derive(Debug, PartialEq)]
pub struct UpdateMetric {
    pub sensor_id: SensorId,
    pub metric_id: MetricId,
    pub name: Option<String>,
    pub value_annotation: Option<String>,
}

#[derive(Debug, PartialEq)]
pub struct DeleteMetric {
    pub sensor_id: SensorId,
    pub metric_id: MetricId,
}

/// A value for a metric, at an optional time in milliseconds since the epoch.
#[derive(Debug, PartialEq)]
pub struct PushValue {
    pub sensor_id: SensorId,
    pub metric_id: MetricId,
    pub value: MetricValue,
    pub timestamp: Option<u64>,
}

fn copy_opt(s: &Option<String>) -> (r: Option<String>)
    ensures
        r == *s,
{
    match s {
        Some(x) => Some(x.clone()),
        None => None,
    }
}

impl PingTest {
    pub fn request(&self) -> (r: OutgoingRequest)
        ensures
            r.scheme == MqttScheme::Ping,
            r.body matches RequestBody::Ping(p) && p.request@ == "Ping!"@,
    {
        OutgoingRequest { scheme: MqttScheme::Ping, body: RequestBody::Ping(ping_request()) }
    }
}

impl CreateSensor {
    pub fn request(&self) -> (r: OutgoingRequest)
        ensures
            r.scheme == MqttScheme::SensorCreate,
            r.body matches RequestBody::CreateSensor(b) && b.name == self.name,
    {
        OutgoingRequest {
            scheme: MqttScheme::SensorCreate,
            body: RequestBody::CreateSensor(CreateSensorRequest { name: self.name.clone() }),
        }
    }
}

impl UpdateSensor {
    /// The update; a state `true` goes out as 1, `false` as 0.
    pub fn request(&self) -> (r: OutgoingRequest)
        ensures
            r.scheme == MqttScheme::SensorUpdate(self.sensor_id),
            r.body matches RequestBody::UpdateSensor(b) && b.name == self.name && b.state == match self.state {
                Some(x) => Some(if x { 1u8 } else { 0u8 }),
                None => None::<u8>,
            },
    {
        let state = match self.state {
            Some(x) => Some(if x { 1u8 } else { 0u8 }),
            None => None,
        };
        OutgoingRequest {
            scheme: MqttScheme::SensorUpdate(self.sensor_id),
            body: RequestBody::UpdateSensor(UpdateSensorRequest { name: self.name.clone(), state }),
        }
    }
}

impl DeleteSensor {
    pub fn request(&self) -> (r: OutgoingRequest)
        ensures
            r == (OutgoingRequest { scheme: MqttScheme::SensorDelete(self.sensor_id), body: RequestBody::Empty }),
    {
        OutgoingRequest { scheme: MqttScheme::SensorDelete(self.sensor_id), body: RequestBody::Empty }
    }
}

impl DumpSensors {
    /// The query whose answer is dumped.
    pub fn query(&self) -> (r: crate::actor::SensorStateQuery)
        ensures
            r == crate::actor::SensorStateQuery::GetStateSnapshot(crate::actor::GetStateSnapshot),
    {
        crate::actor::SensorStateQuery::GetStateSnapshot(crate::actor::GetStateSnapshot)
    }
}

impl LoadSensors {
    pub fn request(&self) -> (r: OutgoingRequest)
        ensures
            r == (OutgoingRequest { scheme: MqttScheme::SensorList, body: RequestBody::Empty }),
    {
        OutgoingRequest { scheme: MqttScheme::SensorList, body: RequestBody::Empty }
    }
}

impl CreateMetrics {
    /// The creation of every metric, each tagged with its position from one.
    pub fn request(&self) -> (r: OutgoingRequest)
        requires
            self.metrics@.len() < usize::MAX,
        ensures
            r.scheme == MqttScheme::MetricCreate(self.sensor_id),
            r.body matches RequestBody::CreateMetrics(b) && b.metrics@.len() == self.metrics@.len()
                && forall|i: int|
                0 <= i < self.metrics@.len() ==> (#[trigger] b.metrics@[i]).metric == self.metrics@[i]
                    && b.metrics@[i].matching_id == i + 1,
    {
        OutgoingRequest {
            scheme: MqttScheme::MetricCreate(self.sensor_id),
            body: RequestBody::CreateMetrics(create_metrics_request(&self.metrics)),
        }
    }
}

impl UpdateMetric {
    pub fn request(&self) -> (r: OutgoingRequest)
        ensures
            r.scheme == MqttScheme::MetricUpdate(self.sensor_id),
            r.body matches RequestBody::UpdateMetric(b) && b.metrics@ == seq![
                UpdateMetricRequest {
                    metric_id: self.metric_id,
                    name: self.name,
                    value_annotation: self.value_annotation,
                },
            ],
    {
        OutgoingRequest {
            scheme: MqttScheme::MetricUpdate(self.sensor_id),
            body: RequestBody::UpdateMetric(
                MetricsArrayRequest::one(
                    UpdateMetricRequest {
                        metric_id: self.metric_id,
                        name: copy_opt(&self.name),
                        value_annotation: copy_opt(&self.value_annotation),
                    },
                ),
            ),
        }
    }
}

impl DeleteMetric {
    pub fn request(&self) -> (r: OutgoingRequest)
        ensures
            r.scheme == MqttScheme::MetricDelete(self.sensor_id),
            r.body matches RequestBody::DeleteMetric(b) && b.metrics@ == seq![
                DeleteMetricRequest { metric_id: self.metric_id },
            ],
    {
        OutgoingRequest {
            scheme: MqttScheme::MetricDelete(self.sensor_id),
            body: RequestBody::DeleteMetric(
                MetricsArrayRequest::one(DeleteMetricRequest { metric_id: self.metric_id }),
            ),
        }
    }
}

impl PushValue {
    pub fn request(&self) -> (r: OutgoingRequest)
        ensures
            r.scheme == MqttScheme::PushValues(self.sensor_id),
            r.body matches RequestBody::PushValue(b) && b.metrics@ == seq![
                PushMetricValueRequest {
                    metric_id: self.metric_id,
                    value: self.value,
                    timestamp: self.timestamp,
                },
            ],
    {
        OutgoingRequest {
            scheme: MqttScheme::PushValues(self.sensor_id),
            body: RequestBody::PushValue(
                MetricsArrayRequest::one(
                    PushMetricValueRequest {
                        metric_id: self.metric_id,
                        value: self.value.copy(),
                        timestamp: self.timestamp,
                    },
                ),
            ),
        }
    }
}

} // verus!
