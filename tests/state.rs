use sensor_vision::actor::Payload;
use sensor_vision::ids::MqttId;
use sensor_vision::protocol::{
    CreateMetricResponsePayload, ErrorResponse, MetricValue, MetricsArrayResponse,
    PushMetricValueResponse,
};
use sensor_vision::sensor::{LinkedMetric, Metric, Sensor, ValueType, ValueUnit};
use sensor_vision::state::{SensorStateEvent, SensorsState, StateError};
use sensor_vision::topic::{Inbound, MqttScheme, Role, TopicIndex};

fn id(v: u128) -> MqttId {
    MqttId::from_u128(v)
}

const S1: u128 = 0x11111111111111111111111111111111;
const S2: u128 = 0x22222222222222222222222222222222;
const A: u128 = 0xaaaaaaaaaaaaaaaaaaaaaaaaaaaaaaaa;
const B: u128 = 0xbbbbbbbbbbbbbbbbbbbbbbbbbbbbbbbb;
const C: u128 = 0xcccccccccccccccccccccccccccccccc;

fn linked(sensor: u128, name: &str, metrics: &[u128]) -> Sensor<LinkedMetric> {
    Sensor {
        name: name.to_string(),
        sensor_id: id(sensor),
        metrics: metrics
            .iter()
            .map(|m| LinkedMetric { link: String::new(), metric_id: id(*m) })
            .collect(),
        connector_id: MqttId::nil(),
    }
}

fn custom(metric: u128, name: &str, annotation: &str) -> Metric {
    Metric::Custom {
        name: name.to_string(),
        metric_id: id(metric),
        value_annotation: annotation.to_string(),
        value_type: ValueType::Integer,
    }
}

fn metric_ids(state: &SensorsState, sensor: u128) -> Vec<MqttId> {
    state.metric_ids(id(sensor)).unwrap()
}

#[test]
fn unknown_sensor_is_linked_with_no_metrics() {
    let mut st = SensorsState::new();
    let events = st.event_sensor_list(&vec![linked(S1, "Temp", &[A])]);
    assert_eq!(events, vec![SensorStateEvent::NewLinkedSensorLoaded(linked(S1, "Temp", &[A]))]);
    assert_eq!(metric_ids(&st, S1), vec![]);
    assert_eq!(st.sensor_id_by_name(&"Temp".to_string()), Some(id(S1)));
}

#[test]
fn diff_deletes_only_unlisted_metrics() {
    let mut st = SensorsState::new();
    st.event_sensor_list(&vec![linked(S1, "S", &[A, B, C])]);
    for m in [A, B, C] {
        st.event_metric_describe(id(S1), id(m), &custom(m, "m", "u")).unwrap();
    }
    assert_eq!(metric_ids(&st, S1), vec![id(A), id(B), id(C)]);
    let events = st.event_sensor_list(&vec![linked(S1, "S", &[A, C])]);
    assert_eq!(
        events,
        vec![
            SensorStateEvent::MetricDeleted { sensor_id: id(S1), metric_id: id(B) },
            SensorStateEvent::ExistingLinkedSensorLoaded(linked(S1, "S", &[A, C])),
        ]
    );
    assert_eq!(metric_ids(&st, S1), vec![id(A), id(C)]);
}

#[test]
fn end_to_end_list_describe_relist() {
    let index = TopicIndex::new();
    let mut st = SensorsState::new();
    // A sensor list reply names S1 "Temp" with stub M1.
    let inbound = index.classify("inventory/inbox");
    assert_eq!(inbound, Inbound::Reply { scheme: MqttScheme::SensorList, role: Role::Success });
    let events = st
        .handle_inbound(inbound, &Payload::SensorList(vec![linked(S1, "Temp", &[A])]))
        .unwrap();
    assert_eq!(events, vec![SensorStateEvent::NewLinkedSensorLoaded(linked(S1, "Temp", &[A]))]);
    assert_eq!(metric_ids(&st, S1), vec![]);
    assert_eq!(st.follow_up(&events[0]), vec![MqttScheme::MetricDescribe(id(S1), id(A))]);
    // The description of M1 arrives.
    let topic = MqttScheme::MetricDescribe(id(S1), id(A)).get_topics().1;
    let inbound = index.classify(&topic);
    let events = st.handle_inbound(inbound, &Payload::Metric(custom(A, "Celsius1", "C"))).unwrap();
    assert_eq!(
        events,
        vec![SensorStateEvent::NewMetricLoaded { sensor_id: id(S1), metric: custom(A, "Celsius1", "C") }]
    );
    assert_eq!(metric_ids(&st, S1), vec![id(A)]);
    // A later list names S1 "Temp2" with no metrics.
    let events = st
        .handle_inbound(
            Inbound::Reply { scheme: MqttScheme::SensorList, role: Role::Success },
            &Payload::SensorList(vec![linked(S1, "Temp2", &[])]),
        )
        .unwrap();
    assert_eq!(
        events,
        vec![
            SensorStateEvent::SensorNameChanged { sensor_id: id(S1), name: "Temp2".to_string() },
            SensorStateEvent::MetricDeleted { sensor_id: id(S1), metric_id: id(A) },
            SensorStateEvent::ExistingLinkedSensorLoaded(linked(S1, "Temp2", &[])),
        ]
    );
    let snapshot = st.snapshot();
    assert_eq!(snapshot.len(), 1);
    assert_eq!(snapshot[0].name, "Temp2");
    assert!(snapshot[0].metrics.is_empty());
}

#[test]
fn second_identical_list_only_relinks() {
    let mut st = SensorsState::new();
    let list = vec![linked(S1, "One", &[A]), linked(S2, "Two", &[])];
    st.event_sensor_list(&list);
    st.event_metric_describe(id(S1), id(A), &custom(A, "a", "u")).unwrap();
    st.event_sensor_list(&list);
    let before = st.snapshot();
    let events = st.event_sensor_list(&list);
    assert_eq!(
        events,
        vec![
            SensorStateEvent::ExistingLinkedSensorLoaded(linked(S1, "One", &[A])),
            SensorStateEvent::ExistingLinkedSensorLoaded(linked(S2, "Two", &[])),
        ]
    );
    assert_eq!(st.snapshot(), before);
}

#[test]
fn sensors_absent_from_a_list_stay() {
    let mut st = SensorsState::new();
    st.event_sensor_list(&vec![linked(S1, "One", &[]), linked(S2, "Two", &[])]);
    st.event_sensor_list(&vec![linked(S2, "Two", &[])]);
    assert_eq!(st.snapshot().len(), 2);
}

#[test]
fn describe_renames_and_reannotates() {
    let mut st = SensorsState::new();
    st.event_sensor_list(&vec![linked(S1, "S", &[A])]);
    st.event_metric_describe(id(S1), id(A), &custom(A, "old", "u1")).unwrap();
    let events = st.event_metric_describe(id(S1), id(A), &custom(A, "new", "u2")).unwrap();
    assert_eq!(
        events,
        vec![
            SensorStateEvent::MetricNameChanged { sensor_id: id(S1), metric_id: id(A), name: "new".to_string() },
            SensorStateEvent::MetricValueAnnotationChanged {
                sensor_id: id(S1),
                metric_id: id(A),
                annotation: "u2".to_string(),
            },
        ]
    );
    assert_eq!(st.metric_id_by_name(id(S1), &"new".to_string()), Some(id(A)));
    assert_eq!(st.metric_id_by_name(id(S1), &"old".to_string()), None);
    let again = st.event_metric_describe(id(S1), id(A), &custom(A, "new", "u2")).unwrap();
    assert!(again.is_empty());
}

#[test]
fn describe_never_changes_unit() {
    let mut st = SensorsState::new();
    st.event_sensor_list(&vec![linked(S1, "S", &[A])]);
    let p = Metric::Predefined { name: "t".to_string(), metric_id: id(A), value_unit: ValueUnit::Celsius };
    st.event_metric_describe(id(S1), id(A), &p).unwrap();
    let q = Metric::Predefined { name: "t".to_string(), metric_id: id(A), value_unit: ValueUnit::Kilogram };
    let events = st.event_metric_describe(id(S1), id(A), &q).unwrap();
    assert!(events.is_empty());
    assert_eq!(st.snapshot()[0].metrics, vec![p]);
}

#[test]
fn describe_of_unknown_sensor_fails() {
    let mut st = SensorsState::new();
    let r = st.event_metric_describe(id(S1), id(A), &custom(A, "a", "u"));
    assert_eq!(r, Err(StateError::UnknownSensor { sensor_id: id(S1) }));
}

#[test]
fn describe_with_other_metric_id_is_mismatched() {
    let mut st = SensorsState::new();
    st.event_sensor_list(&vec![linked(S1, "S", &[A])]);
    let r = st.event_metric_describe(id(S1), id(A), &custom(B, "b", "u"));
    assert_eq!(r, Err(StateError::MismatchedPayload));
    assert_eq!(metric_ids(&st, S1), vec![]);
}

#[test]
fn created_sensor_is_stored_without_metrics() {
    let mut st = SensorsState::new();
    let s = Sensor {
        name: "New".to_string(),
        sensor_id: id(S2),
        metrics: vec![custom(A, "a", "u")],
        connector_id: MqttId::nil(),
    };
    let events = st.event_sensor_create(&s);
    assert_eq!(events, vec![SensorStateEvent::NewSensorCreated(s.clone())]);
    assert_eq!(metric_ids(&st, S2), vec![]);
}

#[test]
fn deleted_sensor_leaves() {
    let mut st = SensorsState::new();
    st.event_sensor_list(&vec![linked(S1, "One", &[]), linked(S2, "Two", &[])]);
    let events = st.event_sensor_delete(id(S1), &"Sensor was deleted.".to_string());
    assert_eq!(events, vec![SensorStateEvent::SensorDeleted { sensor_id: id(S1) }]);
    assert_eq!(st.metric_ids(id(S1)), None);
    assert_eq!(st.sensor_id_by_name(&"Two".to_string()), Some(id(S2)));
}

#[test]
fn metric_create_ack_pairs_by_position() {
    let st = SensorsState::new();
    let created = vec![
        CreateMetricResponsePayload { matching_id: 1, metric_id: id(B) },
        CreateMetricResponsePayload { matching_id: 2, metric_id: id(A) },
    ];
    let events = st.event_metric_create(id(S1), &created);
    assert_eq!(
        events,
        vec![
            SensorStateEvent::NewMetricCreated { sensor_id: id(S1), metric_id: id(B) },
            SensorStateEvent::NewMetricCreated { sensor_id: id(S1), metric_id: id(A) },
        ]
    );
    assert_eq!(st.follow_up(&events[0]), vec![MqttScheme::MetricDescribe(id(S1), id(B))]);
}

#[test]
fn updates_ask_for_refresh() {
    let mut st = SensorsState::new();
    st.event_sensor_list(&vec![linked(S1, "S", &[A, B])]);
    st.event_metric_describe(id(S1), id(A), &custom(A, "a", "u")).unwrap();
    st.event_metric_describe(id(S1), id(B), &custom(B, "b", "u")).unwrap();
    let e = st.event_sensor_update(id(S1), &"Sensor was changed.".to_string());
    assert_eq!(e, vec![SensorStateEvent::SensorUpdated { sensor_id: id(S1) }]);
    assert_eq!(st.follow_up(&e[0]), vec![MqttScheme::SensorList]);
    let e = st.event_metric_update(id(S1), &"All metrics were successfully modified.".to_string());
    assert_eq!(e, vec![SensorStateEvent::SensorMetricsUpdated { sensor_id: id(S1) }]);
    assert_eq!(
        st.follow_up(&e[0]),
        vec![MqttScheme::MetricDescribe(id(S1), id(A)), MqttScheme::MetricDescribe(id(S1), id(B))]
    );
    let e = st.event_metric_delete(id(S1), &"All metrics were successfully deleted.".to_string());
    assert_eq!(e, vec![SensorStateEvent::SensorUpdated { sensor_id: id(S1) }]);
}

#[test]
fn relink_asks_only_for_undescribed_metrics() {
    let mut st = SensorsState::new();
    st.event_sensor_list(&vec![linked(S1, "S", &[A, B])]);
    st.event_metric_describe(id(S1), id(A), &custom(A, "a", "u")).unwrap();
    let events = st.event_sensor_list(&vec![linked(S1, "S", &[A, B])]);
    assert_eq!(st.follow_up(events.last().unwrap()), vec![MqttScheme::MetricDescribe(id(S1), id(B))]);
}

#[test]
fn livedata_yields_one_event_per_value() {
    let st = SensorsState::new();
    let push = MetricsArrayResponse {
        metrics: vec![
            PushMetricValueResponse { metric_id: id(A), value: MetricValue::Integer(7) },
            PushMetricValueResponse { metric_id: id(B), value: MetricValue::Boolean(true) },
        ],
        timestamp: Some(1_700_000_000_000),
    };
    let events = st.event_livedata(id(S1), &push).unwrap();
    assert_eq!(
        events,
        vec![
            SensorStateEvent::Livedata {
                sensor_id: id(S1),
                metric_id: id(A),
                value: MetricValue::Integer(7),
                timestamp: 1_700_000_000_000,
            },
            SensorStateEvent::Livedata {
                sensor_id: id(S1),
                metric_id: id(B),
                value: MetricValue::Boolean(true),
                timestamp: 1_700_000_000_000,
            },
        ]
    );
}

#[test]
fn livedata_without_timestamp_is_malformed() {
    let st = SensorsState::new();
    let push = MetricsArrayResponse { metrics: vec![], timestamp: None };
    assert_eq!(st.event_livedata(id(S1), &push), Err(StateError::Malformed));
}

#[test]
fn error_reply_becomes_error_event() {
    let index = TopicIndex::new();
    let mut st = SensorsState::new();
    let inbound = index.classify("inventory/error/inbox");
    let r = st.handle_inbound(
        inbound,
        &Payload::Remote(ErrorResponse { message: "nope".to_string(), code: 4 }),
    );
    assert_eq!(r, Ok(vec![SensorStateEvent::Error { message: "nope".to_string(), code: 4 }]));
}

#[test]
fn payload_of_wrong_kind_is_mismatched() {
    let mut st = SensorsState::new();
    let r = st.handle_inbound(
        Inbound::Reply { scheme: MqttScheme::SensorList, role: Role::Success },
        &Payload::Empty,
    );
    assert_eq!(r, Err(StateError::MismatchedPayload));
    let r = st.handle_inbound(Inbound::Unknown, &Payload::Empty);
    assert_eq!(r, Err(StateError::UnknownTopic));
}

#[test]
fn default_metric_is_a_placeholder() {
    assert_eq!(
        Metric::default(),
        Metric::Custom {
            name: "Unknown".to_string(),
            metric_id: MqttId::nil(),
            value_annotation: "Unit".to_string(),
            value_type: ValueType::Integer,
        }
    );
}

#[test]
fn acknowledgements_need_their_confirmation_text() {
    let mut st = SensorsState::new();
    st.event_sensor_list(&vec![linked(S1, "One", &[])]);
    let other = "something else".to_string();
    assert!(st.event_sensor_delete(id(S1), &other).is_empty());
    assert_eq!(st.snapshot().len(), 1);
    assert!(st.event_sensor_update(id(S1), &other).is_empty());
    assert!(st.event_metric_update(id(S1), &other).is_empty());
    assert!(st.event_metric_delete(id(S1), &other).is_empty());
    let r = st.handle_inbound(
        Inbound::Reply { scheme: MqttScheme::SensorDelete(id(S1)), role: Role::Success },
        &Payload::Text("Sensor was deleted.".to_string()),
    );
    assert_eq!(r, Ok(vec![SensorStateEvent::SensorDeleted { sensor_id: id(S1) }]));
    assert!(st.snapshot().is_empty());
    let r = st.handle_inbound(
        Inbound::Reply { scheme: MqttScheme::SensorUpdate(id(S1)), role: Role::Success },
        &Payload::Empty,
    );
    assert_eq!(r, Err(StateError::MismatchedPayload));
}

#[test]
fn mirror_is_ordered_by_sensor_id() {
    let mut st = SensorsState::new();
    st.event_sensor_list(&vec![linked(S2, "Same", &[]), linked(S1, "Same", &[])]);
    let snapshot = st.snapshot();
    assert_eq!(snapshot[0].sensor_id, id(S1));
    assert_eq!(snapshot[1].sensor_id, id(S2));
    assert_eq!(st.sensor_id_by_name(&"Same".to_string()), Some(id(S1)));
    assert_eq!(st.sensor_id_by_name(&"None".to_string()), None);
    let created = Sensor { name: "Mid".to_string(), sensor_id: id(0x18), metrics: vec![], connector_id: MqttId::nil() };
    st.event_sensor_create(&created);
    let order: Vec<MqttId> = st.snapshot().iter().map(|s| s.sensor_id).collect();
    assert_eq!(order, vec![id(0x18), id(S1), id(S2)]);
}
