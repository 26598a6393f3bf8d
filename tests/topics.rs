use sensor_vision::ids::MqttId;
use sensor_vision::topic::{all_kinds, Inbound, MqttScheme, Role, TopicIndex};

const S: u128 = 0x6d69c58223fb44a7b76ae61a18faf37c;
const M: u128 = 0x0123456789abcdef0123456789abcdef;

#[test]
fn id_text_is_lowercase_hex() {
    let id = MqttId::from_u128(S);
    assert_eq!(id.to_text(), "6d69c58223fb44a7b76ae61a18faf37c");
    assert_eq!(MqttId::from_u128(1).to_text(), "00000000000000000000000000000001");
}

#[test]
fn nil_id_renders_as_wildcard() {
    assert_eq!(MqttId::nil().to_text(), "+");
    assert!(MqttId::nil().is_nil());
    assert!(!MqttId::from_u128(S).is_nil());
}

#[test]
fn id_text_reads_back() {
    assert_eq!(
        MqttId::from_text("6d69c58223fb44a7b76ae61a18faf37c"),
        Some(MqttId::from_u128(S))
    );
    assert_eq!(MqttId::from_text("6D69C58223FB44A7B76AE61A18FAF37C"), None);
    assert_eq!(MqttId::from_text("6d69c58223fb44a7b76ae61a18faf37"), None);
    assert_eq!(MqttId::from_text("+"), None);
}

#[test]
fn topics_of_metric_describe() {
    let s = MqttScheme::MetricDescribe(MqttId::from_u128(S), MqttId::from_u128(M));
    let (action, success, error) = s.get_topics();
    assert_eq!(
        action,
        "sensor/6d69c58223fb44a7b76ae61a18faf37c/metric/0123456789abcdef0123456789abcdef/inventory"
    );
    assert_eq!(
        success,
        "sensor/6d69c58223fb44a7b76ae61a18faf37c/metric/0123456789abcdef0123456789abcdef/inventory/inbox"
    );
    assert_eq!(
        error,
        "sensor/6d69c58223fb44a7b76ae61a18faf37c/metric/0123456789abcdef0123456789abcdef/inventory/error/inbox"
    );
}

#[test]
fn templates_of_fixed_operations() {
    assert_eq!(
        MqttScheme::SensorList.get_templates(),
        (
            "sensor/list".to_string(),
            "inventory/inbox".to_string(),
            "inventory/error/inbox".to_string()
        )
    );
    assert_eq!(
        MqttScheme::Ping.get_topics(),
        (
            "ping".to_string(),
            "ping/info/inbox".to_string(),
            "ping/error/inbox".to_string()
        )
    );
    assert_eq!(
        MqttScheme::PushValues(MqttId::nil()).get_templates(),
        (
            "sensor/:mqttid:/metric/pushValues".to_string(),
            "sensor/:mqttid:/info/inbox".to_string(),
            "sensor/:mqttid:/error/inbox".to_string()
        )
    );
}

#[test]
fn nil_id_topic_is_a_filter() {
    let (_, success, _) = MqttScheme::SensorUpdate(MqttId::nil()).get_topics();
    assert_eq!(success, "sensor/+/update/info/inbox");
}

#[test]
fn extract_ids_and_pattern_reads_levels() {
    let (ids, pattern) = MqttScheme::extract_ids_and_pattern(
        "sensor/6d69c58223fb44a7b76ae61a18faf37c/metric/0123456789abcdef0123456789abcdef/inventory/inbox",
    );
    assert_eq!(ids, vec![MqttId::from_u128(S), MqttId::from_u128(M)]);
    assert_eq!(pattern, "sensor/:mqttid:/metric/:mqttid:/inventory/inbox");
}

#[test]
fn extract_ignores_non_hex_levels() {
    let (ids, pattern) = MqttScheme::extract_ids_and_pattern("sensor/6D69C58223FB44A7B76AE61A18FAF37C/x");
    assert!(ids.is_empty());
    assert_eq!(pattern, "sensor/6D69C58223FB44A7B76AE61A18FAF37C/x");
    let (ids, pattern) = MqttScheme::extract_ids_and_pattern("");
    assert!(ids.is_empty());
    assert_eq!(pattern, "");
}

fn with_ids(k: MqttScheme) -> MqttScheme {
    let a = MqttId::from_u128(S);
    let b = MqttId::from_u128(M);
    match k {
        MqttScheme::SensorUpdate(_) => MqttScheme::SensorUpdate(a),
        MqttScheme::SensorDelete(_) => MqttScheme::SensorDelete(a),
        MqttScheme::MetricDescribe(_, _) => MqttScheme::MetricDescribe(a, b),
        MqttScheme::MetricCreate(_) => MqttScheme::MetricCreate(a),
        MqttScheme::MetricUpdate(_) => MqttScheme::MetricUpdate(a),
        MqttScheme::MetricDelete(_) => MqttScheme::MetricDelete(a),
        MqttScheme::PushValues(_) => MqttScheme::PushValues(a),
        other => other,
    }
}

#[test]
fn every_reply_topic_round_trips() {
    let index = TopicIndex::new();
    for k in all_kinds() {
        let s = with_ids(k);
        let (_, success, error) = s.get_topics();
        let (_, success_t, error_t) = s.get_templates();
        let (ids, pattern) = MqttScheme::extract_ids_and_pattern(&success);
        assert_eq!(ids, s.ids());
        assert_eq!(pattern, success_t);
        let (_, pattern) = MqttScheme::extract_ids_and_pattern(&error);
        assert_eq!(pattern, error_t);
        assert_eq!(index.classify(&success), Inbound::Reply { scheme: s, role: Role::Success });
        assert_eq!(index.classify(&error), Inbound::Reply { scheme: s, role: Role::Error });
    }
}

#[test]
fn success_and_error_templates_differ() {
    for k in all_kinds() {
        let (action, success, error) = k.get_templates();
        assert_ne!(success, error);
        assert_ne!(action, success);
    }
}

#[test]
fn livedata_topic_is_classified_apart() {
    let index = TopicIndex::new();
    assert_eq!(
        index.classify("sensor/6d69c58223fb44a7b76ae61a18faf37c/livedata"),
        Inbound::Livedata(MqttId::from_u128(S))
    );
}

#[test]
fn unknown_and_action_topics_are_not_replies() {
    let index = TopicIndex::new();
    assert_eq!(index.classify("sensor/list"), Inbound::Unknown);
    assert_eq!(index.classify("something/else"), Inbound::Unknown);
    assert_eq!(index.classify("sensor/inbox/extra"), Inbound::Unknown);
}

#[test]
fn with_ids_checks_arity() {
    let a = MqttId::from_u128(S);
    assert_eq!(
        MqttScheme::SensorDelete(MqttId::nil()).with_ids(&vec![a]),
        Some(MqttScheme::SensorDelete(a))
    );
    assert_eq!(MqttScheme::SensorDelete(MqttId::nil()).with_ids(&vec![]), None);
    assert_eq!(MqttScheme::Ping.with_ids(&vec![a]), None);
}
