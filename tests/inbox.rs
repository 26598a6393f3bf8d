use sensor_vision::actor::{
    GetMetricIds, GetSensorIdByName, GetStateSnapshot, Outcome, Payload, QueryAnswer,
    SensorStateActor, SensorStateQuery, StateActorCommand,
};
use sensor_vision::ids::MqttId;
use sensor_vision::protocol::{create_metrics_request, ping_answered, ping_request, MetricsArrayRequest, PingResponse};
use sensor_vision::sensor::{LinkedMetric, Metric, Sensor, ValueType, ValueUnit};
use sensor_vision::topic::{Inbound, MqttScheme, Role};

fn list_of(name: &str) -> Payload {
    Payload::SensorList(vec![Sensor {
        name: name.to_string(),
        sensor_id: MqttId::from_u128(5),
        metrics: Vec::<LinkedMetric>::new(),
        connector_id: MqttId::nil(),
    }])
}

#[test]
fn query_after_mutation_sees_it() {
    let mut actor = SensorStateActor::new();
    let reply = Inbound::Reply { scheme: MqttScheme::SensorList, role: Role::Success };
    let cmds = vec![
        StateActorCommand::StateQuery(SensorStateQuery::GetSensorIdByName(GetSensorIdByName("Temp".to_string()))),
        StateActorCommand::ProcessMqttEvent { inbound: reply, payload: list_of("Temp") },
        StateActorCommand::StateQuery(SensorStateQuery::GetSensorIdByName(GetSensorIdByName("Temp".to_string()))),
        StateActorCommand::ProcessMqttEvent { inbound: reply, payload: list_of("Other") },
        StateActorCommand::StateQuery(SensorStateQuery::GetSensorIdByName(GetSensorIdByName("Temp".to_string()))),
        StateActorCommand::StateQuery(SensorStateQuery::GetMetricIds(GetMetricIds(MqttId::from_u128(5)))),
    ];
    let out = actor.process_inbox(&cmds);
    assert_eq!(out.len(), 6);
    assert_eq!(out[0], Outcome::Answered(QueryAnswer::SensorId(None)));
    assert_eq!(out[2], Outcome::Answered(QueryAnswer::SensorId(Some(MqttId::from_u128(5)))));
    assert_eq!(out[4], Outcome::Answered(QueryAnswer::SensorId(None)));
    assert_eq!(out[5], Outcome::Answered(QueryAnswer::MetricIds(Some(vec![]))));
}

#[test]
fn snapshot_query_answers_the_mirror() {
    let mut actor = SensorStateActor::new();
    let reply = Inbound::Reply { scheme: MqttScheme::SensorList, role: Role::Success };
    actor.handle_command(&StateActorCommand::ProcessMqttEvent { inbound: reply, payload: list_of("Temp") });
    let out = actor.handle_command(&StateActorCommand::StateQuery(SensorStateQuery::GetStateSnapshot(GetStateSnapshot)));
    match out {
        Outcome::Answered(QueryAnswer::StateSnapshot(s)) => {
            assert_eq!(s.len(), 1);
            assert_eq!(s[0].name, "Temp");
        }
        other => panic!("unexpected {:?}", other),
    }
}

#[test]
fn metrics_array_request_one_and_many() {
    assert_eq!(MetricsArrayRequest::one(3).metrics, vec![3]);
    assert_eq!(MetricsArrayRequest::many(vec![1, 2]).metrics, vec![1, 2]);
}

#[test]
fn create_request_tags_by_position() {
    let metrics = vec![
        Metric::predefined("t".to_string(), ValueUnit::Celsius),
        Metric::custom("c".to_string(), ValueType::Double, "x".to_string()),
    ];
    let r = create_metrics_request(&metrics);
    assert_eq!(r.metrics.len(), 2);
    assert_eq!(r.metrics[0].matching_id, 1);
    assert_eq!(r.metrics[1].matching_id, 2);
    assert_eq!(r.metrics[1].metric, metrics[1]);
    assert!(r.metrics[0].metric.metric_id().is_nil());
}

#[test]
fn ping_round() {
    assert_eq!(ping_request().request, "Ping!");
    assert!(ping_answered(&PingResponse { answer: "Ping!".to_string() }));
    assert!(!ping_answered(&PingResponse { answer: "Pong".to_string() }));
}

use sensor_vision::client::{
    CreateMetrics, CreateSensor, DeleteMetric, DeleteSensor, DumpSensors, LoadSensors, OutgoingRequest,
    PingTest, PushValue, RequestBody, UpdateMetric, UpdateSensor,
};
use sensor_vision::protocol::{CreateSensorRequest, DeleteMetricRequest, MetricValue, UpdateSensorRequest};

#[test]
fn commands_address_their_operations() {
    let s = MqttId::from_u128(7);
    let m = MqttId::from_u128(8);
    assert_eq!(
        LoadSensors.request(),
        OutgoingRequest { scheme: MqttScheme::SensorList, body: RequestBody::Empty }
    );
    assert_eq!(
        DeleteSensor { sensor_id: s }.request(),
        OutgoingRequest { scheme: MqttScheme::SensorDelete(s), body: RequestBody::Empty }
    );
    assert_eq!(
        CreateSensor { name: "N".to_string() }.request(),
        OutgoingRequest {
            scheme: MqttScheme::SensorCreate,
            body: RequestBody::CreateSensor(CreateSensorRequest { name: "N".to_string() })
        }
    );
    assert_eq!(
        UpdateSensor { sensor_id: s, name: "N".to_string(), state: Some(true) }.request(),
        OutgoingRequest {
            scheme: MqttScheme::SensorUpdate(s),
            body: RequestBody::UpdateSensor(UpdateSensorRequest { name: "N".to_string(), state: Some(1) })
        }
    );
    let d = DeleteMetric { sensor_id: s, metric_id: m }.request();
    assert_eq!(d.scheme, MqttScheme::MetricDelete(s));
    assert_eq!(
        d.body,
        RequestBody::DeleteMetric(MetricsArrayRequest::one(DeleteMetricRequest { metric_id: m }))
    );
    let p = PushValue { sensor_id: s, metric_id: m, value: MetricValue::Integer(3), timestamp: None }.request();
    assert_eq!(p.scheme, MqttScheme::PushValues(s));
    let u = UpdateMetric { sensor_id: s, metric_id: m, name: Some("x".to_string()), value_annotation: None }.request();
    assert_eq!(u.scheme, MqttScheme::MetricUpdate(s));
    assert!(matches!(PingTest.request().body, RequestBody::Ping(_)));
    let c = CreateMetrics {
        sensor_id: s,
        metrics: vec![Metric::predefined("t".to_string(), ValueUnit::Volt)],
    }
    .request();
    assert_eq!(c.scheme, MqttScheme::MetricCreate(s));
    assert_eq!(DumpSensors.query(), SensorStateQuery::GetStateSnapshot(GetStateSnapshot));
}
