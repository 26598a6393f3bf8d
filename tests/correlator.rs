use sensor_vision::correlator::{CallError, Correlator, CorrelatorAction, PendingCall};
use sensor_vision::ids::MqttId;
use sensor_vision::topic::{full_topic, strip_connector, MqttScheme};

const CONNECTOR: u128 = 0x6d69c58223fb44a7b76ae61a18faf37c;

fn call(ticket: u64, scheme: MqttScheme) -> PendingCall {
    PendingCall { ticket, scheme, payload: "{}".to_string() }
}

#[test]
fn connector_prefix_is_added_and_stripped() {
    let c = MqttId::from_u128(CONNECTOR);
    let t = full_topic(c, "sensor/list");
    assert_eq!(t, "/v1.0/6d69c58223fb44a7b76ae61a18faf37c/sensor/list");
    assert_eq!(strip_connector(c, &t), Some("sensor/list".to_string()));
    assert_eq!(strip_connector(c, "/v1.0/00000000000000000000000000000000/sensor/list"), None);
    assert_eq!(strip_connector(c, "short"), None);
}

#[test]
fn call_subscribes_then_publishes() {
    let mut k = Correlator::new(MqttId::from_u128(CONNECTOR));
    let acts = k.submit(call(1, MqttScheme::Ping));
    assert_eq!(
        acts,
        vec![
            CorrelatorAction::Subscribe {
                success: "/v1.0/6d69c58223fb44a7b76ae61a18faf37c/ping/info/inbox".to_string(),
                error: "/v1.0/6d69c58223fb44a7b76ae61a18faf37c/ping/error/inbox".to_string(),
            },
            CorrelatorAction::Publish {
                topic: "/v1.0/6d69c58223fb44a7b76ae61a18faf37c/ping".to_string(),
                payload: "{}".to_string(),
            },
        ]
    );
    assert!(k.is_busy());
}

#[test]
fn second_call_waits_for_the_first() {
    let mut k = Correlator::new(MqttId::from_u128(CONNECTOR));
    k.submit(call(1, MqttScheme::Ping));
    assert!(k.submit(call(2, MqttScheme::SensorList)).is_empty());
    let acts = k.on_message(
        &"/v1.0/6d69c58223fb44a7b76ae61a18faf37c/ping/info/inbox".to_string(),
        &"{\"answer\":\"Ping!\"}".to_string(),
    );
    assert_eq!(acts.len(), 4);
    assert!(matches!(acts[0], CorrelatorAction::Unsubscribe { .. }));
    assert_eq!(
        acts[1],
        CorrelatorAction::Resolve { ticket: 1, result: Ok("{\"answer\":\"Ping!\"}".to_string()) }
    );
    assert!(matches!(acts[2], CorrelatorAction::Subscribe { .. }));
    assert_eq!(
        acts[3],
        CorrelatorAction::Publish {
            topic: "/v1.0/6d69c58223fb44a7b76ae61a18faf37c/sensor/list".to_string(),
            payload: "{}".to_string(),
        }
    );
}

#[test]
fn error_topic_fails_the_call() {
    let mut k = Correlator::new(MqttId::from_u128(CONNECTOR));
    k.submit(call(9, MqttScheme::SensorCreate));
    let acts = k.on_message(
        &"/v1.0/6d69c58223fb44a7b76ae61a18faf37c/sensor/error/inbox".to_string(),
        &"bad".to_string(),
    );
    assert_eq!(
        acts,
        vec![
            CorrelatorAction::Unsubscribe {
                success: "/v1.0/6d69c58223fb44a7b76ae61a18faf37c/sensor/inbox".to_string(),
                error: "/v1.0/6d69c58223fb44a7b76ae61a18faf37c/sensor/error/inbox".to_string(),
            },
            CorrelatorAction::Resolve { ticket: 9, result: Err(CallError::Remote("bad".to_string())) },
        ]
    );
    assert!(!k.is_busy());
}

#[test]
fn unrelated_message_and_failures() {
    let mut k = Correlator::new(MqttId::from_u128(CONNECTOR));
    assert!(k.on_message(&"x".to_string(), &"y".to_string()).is_empty());
    assert!(k.on_transport_failure().is_empty());
    k.submit(call(3, MqttScheme::Ping));
    assert!(k.on_message(&"x".to_string(), &"y".to_string()).is_empty());
    let acts = k.on_transport_failure();
    assert_eq!(acts[1], CorrelatorAction::Resolve { ticket: 3, result: Err(CallError::Transport) });
    assert!(!k.is_busy());
}
