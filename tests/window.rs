use sensor_vision::window::{MetricLivedataWindow, LIVEDATA_WINDOW_LIMIT};

#[test]
fn window_keeps_fifty_newest_in_order() {
    let mut w: MetricLivedataWindow<i64> = MetricLivedataWindow::new();
    // 51 distinct timestamps, some out of order: 1000..1050 shuffled by a stride coprime to 51.
    let mut pushed = Vec::new();
    for k in 0..51u64 {
        let ts = 1000 + (k * 16) % 51;
        pushed.push(ts);
        w.push_data(ts, ts as i64 * 10);
    }
    let data = w.data();
    assert_eq!(data.len(), LIVEDATA_WINDOW_LIMIT);
    let mut expected: Vec<u64> = pushed.clone();
    expected.sort();
    let expected: Vec<u64> = expected[1..].to_vec();
    let got: Vec<u64> = data.iter().map(|(t, _)| *t).collect();
    assert_eq!(got, expected);
    assert!(data.iter().all(|(t, v)| *v == *t as i64 * 10));
}

#[test]
fn window_drops_a_sample_older_than_a_full_window() {
    let mut w: MetricLivedataWindow<i64> = MetricLivedataWindow::new();
    for ts in 100..150u64 {
        w.push_data(ts, 1);
    }
    w.push_data(5, 2);
    assert_eq!(w.len(), 50);
    assert_eq!(w.min_timestamp(), Some(100));
    assert_eq!(w.max_timestamp(), Some(149));
}

#[test]
fn window_overwrites_equal_timestamp() {
    let mut w: MetricLivedataWindow<i64> = MetricLivedataWindow::new();
    w.push_data(10, 1);
    w.push_data(20, 2);
    w.push_data(10, 3);
    assert_eq!(w.data(), vec![(10, 3), (20, 2)]);
    assert_eq!(w.last_value(), Some(2));
}

#[test]
fn full_window_with_equal_timestamp_keeps_all() {
    let mut w: MetricLivedataWindow<i64> = MetricLivedataWindow::new();
    for ts in 0..50u64 {
        w.push_data(ts, 0);
    }
    w.push_data(0, 9);
    assert_eq!(w.len(), 50);
    assert_eq!(w.data()[0], (0, 9));
}

#[test]
fn empty_window_has_no_bounds() {
    let w: MetricLivedataWindow<i64> = MetricLivedataWindow::new();
    assert_eq!(w.len(), 0);
    assert_eq!(w.min_timestamp(), None);
    assert_eq!(w.max_timestamp(), None);
    assert_eq!(w.last_value(), None);
}

use sensor_vision::ids::MqttId;
use sensor_vision::window::{label_format, same_utc_day, LivedataWindows};

#[test]
fn label_format_depends_on_the_day() {
    assert!(same_utc_day(0, 86_399_999));
    assert!(!same_utc_day(86_399_999, 86_400_000));
    assert_eq!(label_format(1_000, 2_000), "%H:%M:%S");
    assert_eq!(label_format(1_000, 86_400_000), "%H:%M:%S %d-%m-%y");
}

#[test]
fn labels_of_a_window() {
    let mut w: MetricLivedataWindow<i64> = MetricLivedataWindow::new();
    assert_eq!(w.timestamp_labels(), None);
    w.push_data(3_600_000, 1);
    w.push_data(3_661_000, 2);
    assert_eq!(w.timestamp_labels(), Some(("01:00:00".to_string(), "01:01:01".to_string())));
    w.push_data(90_000_000, 3);
    assert_eq!(
        w.timestamp_labels(),
        Some(("01:00:00 01-01-70".to_string(), "01:00:00 02-01-70".to_string()))
    );
}

#[test]
fn windows_are_created_and_dropped() {
    let s1 = MqttId::from_u128(1);
    let s2 = MqttId::from_u128(2);
    let m1 = MqttId::from_u128(10);
    let m2 = MqttId::from_u128(20);
    let mut ws: LivedataWindows<i64> = LivedataWindows::new();
    assert_eq!(ws.samples(s1, m1), None);
    ws.accept(s1, m1, 5, 50);
    ws.accept(s1, m2, 6, 60);
    ws.accept(s2, m1, 7, 70);
    ws.accept(s1, m1, 4, 40);
    assert_eq!(ws.samples(s1, m1), Some(vec![(4, 40), (5, 50)]));
    ws.drop_metric(s1, m1);
    assert_eq!(ws.samples(s1, m1), None);
    assert_eq!(ws.samples(s1, m2), Some(vec![(6, 60)]));
    assert_eq!(ws.samples(s2, m1), Some(vec![(7, 70)]));
    ws.drop_sensor(s1);
    assert_eq!(ws.samples(s1, m2), None);
    assert_eq!(ws.window(s2, m1).map(|w| w.len()), Some(1));
}

use sensor_vision::protocol::MetricValue;
use sensor_vision::state::SensorStateEvent;
use sensor_vision::window::Sample;

#[test]
fn events_feed_and_drop_windows() {
    let s = MqttId::from_u128(1);
    let m = MqttId::from_u128(2);
    let mut ws: LivedataWindows<Sample> = LivedataWindows::new();
    let live = |v: MetricValue, t: u64| SensorStateEvent::Livedata { sensor_id: s, metric_id: m, value: v, timestamp: t };
    ws.apply_event(&live(MetricValue::Integer(4), 10));
    ws.apply_event(&live(MetricValue::String("x".to_string()), 11));
    ws.apply_event(&live(MetricValue::Double(2.5f64.to_bits()), 12));
    assert_eq!(
        ws.samples(s, m),
        Some(vec![(10, Sample::Integer(4)), (12, Sample::Double(2.5f64.to_bits()))])
    );
    ws.apply_event(&SensorStateEvent::SensorUpdated { sensor_id: s });
    assert_eq!(ws.samples(s, m).map(|v| v.len()), Some(2));
    ws.apply_event(&SensorStateEvent::MetricDeleted { sensor_id: s, metric_id: m });
    assert_eq!(ws.samples(s, m), None);
}
