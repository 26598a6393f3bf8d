use vstd::prelude::*;

use crate::ids::{MetricId, SensorId};
use crate::protocol::{
    CreateMetricResponsePayload, ErrorResponse, MetricValue, MetricsArrayResponse,
    PushMetricValueResponse,
};
use crate::sensor::{
    LinkedMetric, Metric, Sensor, SensorModel, metric_id_of, metric_name_of, renamed,
};

verus! {

/// A normalized change of the local mirror, or a remote error.
#[derive(Clone, Debug, PartialEq)]
pub enum SensorStateEvent {
    /// A sensor seen for the first time in a sensor list.
    NewLinkedSensorLoaded(Sensor<LinkedMetric>),
    /// A known sensor listed again; sent once per listing, after its changes.
    ExistingLinkedSensorLoaded(Sensor<LinkedMetric>),
    NewMetricLoaded { sensor_id: SensorId, metric: Metric },
    NewSensorCreated(Sensor<Metric>),
    NewMetricCreated { sensor_id: SensorId, metric_id: MetricId },
    /// The sensor changed in a way the acknowledgement does not describe.
    SensorUpdated { sensor_id: SensorId },
    SensorMetricsUpdated { sensor_id: SensorId },
    SensorDeleted { sensor_id: SensorId },
    MetricDeleted { sensor_id: SensorId, metric_id: MetricId },
    SensorNameChanged { sensor_id: SensorId, name: String },
    MetricNameChanged { sensor_id: SensorId, metric_id: MetricId, name: String },
    MetricValueAnnotationChanged { sensor_id: SensorId, metric_id: MetricId, annotation: String },
    Livedata { sensor_id: SensorId, metric_id: MetricId, value: MetricValue, timestamp: u64 },
    Error { message: String, code: i32 },
}

/// An event, with the sensors it carries seen through their views.
pub enum EventModel {
    Linked(SensorModel<LinkedMetric>),
    Relinked(SensorModel<LinkedMetric>),
    Created(SensorModel<Metric>),
    Other(SensorStateEvent),
}

impl View for SensorStateEvent {
    type V = EventModel;

    open spec fn view(&self) -> EventModel {
        match self {
            SensorStateEvent::NewLinkedSensorLoaded(s) => EventModel::Linked(s@),
            SensorStateEvent::ExistingLinkedSensorLoaded(s) => EventModel::Relinked(s@),
            SensorStateEvent::NewSensorCreated(s) => EventModel::Created(s@),
            _ => EventModel::Other(*self),
        }
    }
}

pub open spec fn events_view(v: Seq<SensorStateEvent>) -> Seq<EventModel> {
    Seq::new(v.len(), |i: int| v[i]@)
}

pub type SensorsModel = Seq<SensorModel<Metric>>;

/// Number of sensors with a smaller id than `id`.
pub open spec fn sorted_pos(st: SensorsModel, id: SensorId) -> nat
    decreases st.len(),
{
    if st.len() == 0 {
        0
    } else {
        sorted_pos(st.drop_last(), id) + if st.last().sensor_id.value < id.value {
            1nat
        } else {
            0nat
        }
    }
}

/// `x` put among the sensors in id order.
pub open spec fn insert_sorted(st: SensorsModel, x: SensorModel<Metric>) -> SensorsModel {
    st.insert(sorted_pos(st, x.sensor_id) as int, x)
}

/// Position of the first sensor with id `id`, or -1.
pub open spec fn index_of(st: SensorsModel, id: SensorId) -> int
    decreases st.len(),
{
    if st.len() == 0 {
        -1
    } else {
        let r = index_of(st.drop_last(), id);
        if r >= 0 {
            r
        } else if st.last().sensor_id == id {
            st.len() - 1
        } else {
            -1
        }
    }
}

pub open spec fn linked_has(ls: Seq<LinkedMetric>, id: MetricId) -> bool {
    exists|j: int| 0 <= j < ls.len() && ls[j].metric_id == id
}

/// The metrics that a listing still names, in their local order.
pub open spec fn kept_metrics(ms: Seq<Metric>, ls: Seq<LinkedMetric>) -> Seq<Metric>
    decreases ms.len(),
{
    if ms.len() == 0 {
        Seq::empty()
    } else {
        let r = kept_metrics(ms.drop_last(), ls);
        if linked_has(ls, metric_id_of(ms.last())) {
            r.push(ms.last())
        } else {
            r
        }
    }
}

/// A `MetricDeleted` for each local metric the listing no longer names, in
/// local order.
pub open spec fn deleted_events(sid: SensorId, ms: Seq<Metric>, ls: Seq<LinkedMetric>) -> Seq<
    EventModel,
>
    decreases ms.len(),
{
    if ms.len() == 0 {
        Seq::empty()
    } else {
        let r = deleted_events(sid, ms.drop_last(), ls);
        if linked_has(ls, metric_id_of(ms.last())) {
            r
        } else {
            r.push(
                EventModel::Other(
                    SensorStateEvent::MetricDeleted { sensor_id: sid, metric_id: metric_id_of(ms.last()) },
                ),
            )
        }
    }
}

/// Merging one listed sensor: the new state and the events, in order.
pub open spec fn list_step(st: SensorsModel, ls: SensorModel<LinkedMetric>) -> (
    SensorsModel,
    Seq<EventModel>,
) {
    let i = index_of(st, ls.sensor_id);
    if i < 0 {
        (
            insert_sorted(
                st,
                SensorModel {
                    name: ls.name,
                    sensor_id: ls.sensor_id,
                    metrics: Seq::empty(),
                    connector_id: ls.connector_id,
                },
            ),
            seq![EventModel::Linked(ls)],
        )
    } else {
        let cur = st[i];
        let name_changed = cur.name@ != ls.name@;
        let name_events = if name_changed {
            seq![
                EventModel::Other(
                    SensorStateEvent::SensorNameChanged { sensor_id: ls.sensor_id, name: ls.name },
                ),
            ]
        } else {
            Seq::empty()
        };
        let merged = SensorModel {
            name: if name_changed {
                ls.name
            } else {
                cur.name
            },
            sensor_id: cur.sensor_id,
            metrics: kept_metrics(cur.metrics, ls.metrics),
            connector_id: cur.connector_id,
        };
        (
            st.update(i, merged),
            name_events + deleted_events(ls.sensor_id, cur.metrics, ls.metrics) + seq![
                EventModel::Relinked(ls),
            ],
        )
    }
}

/// Merging a whole sensor list, sensor by sensor.
pub open spec fn apply_list(st: SensorsModel, ls: Seq<SensorModel<LinkedMetric>>) -> (
    SensorsModel,
    Seq<EventModel>,
)
    decreases ls.len(),
{
    if ls.len() == 0 {
        (st, Seq::empty())
    } else {
        let (s1, e1) = apply_list(st, ls.drop_last());
        let (s2, e2) = list_step(s1, ls.last());
        (s2, e1 + e2)
    }
}

pub open spec fn metric_ids_unique(ms: Seq<Metric>) -> bool {
    forall|i: int, j: int|
        0 <= i < j < ms.len() ==> metric_id_of(ms[i]) != metric_id_of(ms[j])
}

/// Sensors ascending by id (so ids are unique), and metric ids unique within
/// each sensor.
pub open spec fn sensors_wf(st: SensorsModel) -> bool {
    &&& forall|i: int, j: int|
        0 <= i < j < st.len() ==> st[i].sensor_id.value < st[j].sensor_id.value
    &&& forall|i: int| 0 <= i < st.len() ==> metric_ids_unique(#[trigger] st[i].metrics)
}

/// The local mirror of the server's sensors and their metrics.
pub struct SensorsState {
    sensors: Vec<Sensor<Metric>>,
}

impl View for SensorsState {
    type V = SensorsModel;

    closed spec fn view(&self) -> SensorsModel {
        Seq::new(self.sensors@.len(), |i: int| self.sensors@[i]@)
    }
}

proof fn lemma_sorted_pos(st: SensorsModel, id: SensorId, p: int)
    requires
        0 <= p <= st.len(),
        forall|i: int| 0 <= i < p ==> (#[trigger] st[i]).sensor_id.value < id.value,
        forall|i: int| p <= i < st.len() ==> (#[trigger] st[i]).sensor_id.value >= id.value,
    ensures
        sorted_pos(st, id) == p,
    decreases st.len(),
{
    if st.len() > 0 {
        let s0 = st.drop_last();
        let p0 = if p == st.len() {
            p - 1
        } else {
            p
        };
        assert forall|i: int| 0 <= i < p0 implies (#[trigger] s0[i]).sensor_id.value < id.value by {
            assert(s0[i] == st[i]);
        }
        assert forall|i: int| p0 <= i < s0.len() implies (#[trigger] s0[i]).sensor_id.value >= id.value by {
            assert(s0[i] == st[i]);
        }
        lemma_sorted_pos(s0, id, p0);
        assert(st.last() == st[st.len() - 1]);
    }
}

proof fn lemma_index_of_range(st: SensorsModel, id: SensorId)
    ensures
        -1 <= index_of(st, id) < st.len(),
        index_of(st, id) >= 0 ==> st[index_of(st, id)].sensor_id == id,
        index_of(st, id) < 0 ==> forall|i: int| 0 <= i < st.len() ==> st[i].sensor_id != id,
    decreases st.len(),
{
    if st.len() > 0 {
        lemma_index_of_range(st.drop_last(), id);
        assert forall|i: int| 0 <= i < st.len() - 1 implies st[i] == st.drop_last()[i] by {}
    }
}

proof fn lemma_kept_step(ms: Seq<Metric>, ls: Seq<LinkedMetric>, sid: SensorId, j: int)
    requires
        0 <= j < ms.len(),
    ensures
        kept_metrics(ms.take(j + 1), ls) == if linked_has(ls, metric_id_of(ms[j])) {
            kept_metrics(ms.take(j), ls).push(ms[j])
        } else {
            kept_metrics(ms.take(j), ls)
        },
        deleted_events(sid, ms.take(j + 1), ls) == if linked_has(ls, metric_id_of(ms[j])) {
            deleted_events(sid, ms.take(j), ls)
        } else {
            deleted_events(sid, ms.take(j), ls).push(
                EventModel::Other(
                    SensorStateEvent::MetricDeleted { sensor_id: sid, metric_id: metric_id_of(ms[j]) },
                ),
            )
        },
{
    assert(ms.take(j + 1).drop_last() =~= ms.take(j));
}

/// Whether the listed metrics name `id`.
fn linked_names(ls: &Vec<LinkedMetric>, id: MetricId) -> (r: bool)
    ensures
        r == linked_has(ls@, id),
{
    let mut j: usize = 0;
    while j < ls.len()
        invariant
            0 <= j <= ls@.len(),
            forall|k: int| 0 <= k < j ==> ls@[k].metric_id != id,
        decreases ls@.len() - j,
    {
        if ls[j].metric_id == id {
            return true;
        }
        j += 1;
    }
    false
}

impl SensorsState {
    pub open spec fn wf(&self) -> bool {
        sensors_wf(self@)
    }

    pub fn new() -> (r: SensorsState)
        ensures
            r@ == Seq::<SensorModel<Metric>>::empty(),
            r.wf(),
    {
        let r = SensorsState { sensors: Vec::new() };
        proof {
            assert(r@ =~= Seq::<SensorModel<Metric>>::empty());
        }
        r
    }

    /// Position of the sensor with id `id`, if it is known.
    pub fn find(&self, id: SensorId) -> (r: Option<usize>)
        ensures
            index_of(self@, id) < 0 <==> r is None,
            r matches Some(k) ==> k == index_of(self@, id),
    {
        let n = self.sensors.len();
        let mut i: usize = 0;
        while i < n
            invariant
                n == self@.len(),
                0 <= i <= n,
                index_of(self@.take(i as int), id) == -1,
            decreases n - i,
        {
            proof {
                assert(self@.take(i + 1).drop_last() =~= self@.take(i as int));
                assert(self@[i as int].sensor_id == self.sensors@[i as int].sensor_id);
            }
            if self.sensors[i].sensor_id == id {
                proof {
                    assert(index_of(self@.take(i + 1), id) == i);
                    lemma_index_of_prefix(self@, id, i as int + 1);
                }
                return Some(i);
            }
            i += 1;
        }
        proof {
            assert(self@.take(n as int) =~= self@);
        }
        None
    }

    /// Merges one listed sensor, appending its events to `events`.
    fn merge_linked_sensor(&mut self, ls: &Sensor<LinkedMetric>, events: &mut Vec<SensorStateEvent>)
        requires
            old(self).wf(),
        ensures
            final(self).wf(),
            final(self)@ == list_step(old(self)@, ls@).0,
            events_view(final(events)@) == events_view(old(events)@) + list_step(old(self)@, ls@).1,
    {
        let ghost st = self@;
        let ghost ev0 = events_view(events@);
        proof {
            lemma_index_of_range(st, ls.sensor_id);
        }
        match self.find(ls.sensor_id) {
            None => {
                self.insert_sensor(
                    Sensor {
                        name: ls.name.clone(),
                        sensor_id: ls.sensor_id,
                        metrics: Vec::new(),
                        connector_id: ls.connector_id,
                    },
                );
                events.push(SensorStateEvent::NewLinkedSensorLoaded(ls.copy_linked()));
                proof {
                    assert(events_view(events@) =~= ev0 + list_step(st, ls@).1);
                }
            },
            Some(i) => {
                let cur = &self.sensors[i];
                let ghost curm = cur@;
                proof {
                    assert(curm == st[i as int]);
                }
                let mut kept: Vec<Metric> = Vec::new();
                let mut deleted: Vec<SensorStateEvent> = Vec::new();
                let mut j: usize = 0;
                proof {
                    assert(curm.metrics.take(0) =~= Seq::<Metric>::empty());
                    assert(events_view(deleted@) =~= Seq::<EventModel>::empty());
                }
                while j < cur.metrics.len()
                    invariant
                        curm == cur@,
                        curm == st[i as int],
                        self@ == st,
                        sensors_wf(st),
                        index_of(st, ls.sensor_id) == i,
                        0 <= i < st.len(),
                        0 <= j <= curm.metrics.len(),
                        kept@ == kept_metrics(curm.metrics.take(j as int), ls.metrics@),
                        events_view(deleted@) == deleted_events(
                            ls.sensor_id,
                            curm.metrics.take(j as int),
                            ls.metrics@,
                        ),
                    decreases curm.metrics.len() - j,
                {
                    let m = &cur.metrics[j];
                    let id = m.metric_id();
                    proof {
                        lemma_kept_step(curm.metrics, ls.metrics@, ls.sensor_id, j as int);
                    }
                    if linked_names(&ls.metrics, id) {
                        kept.push(m.copy());
                    } else {
                        let ghost d0 = deleted@;
                        deleted.push(SensorStateEvent::MetricDeleted { sensor_id: ls.sensor_id, metric_id: id });
                        proof {
                            assert(events_view(deleted@) =~= events_view(d0).push(deleted@.last()@));
                        }
                    }
                    j += 1;
                }
                proof {
                    assert(curm.metrics.take(j as int) =~= curm.metrics);
                }
                let name_changed = cur.name != ls.name;
                let name = if name_changed {
                    ls.name.clone()
                } else {
                    cur.name.clone()
                };
                let merged = Sensor {
                    name,
                    sensor_id: cur.sensor_id,
                    metrics: kept,
                    connector_id: cur.connector_id,
                };
                proof {
                    lemma_kept_sub(curm.metrics, ls.metrics@);
                }
                self.sensors.set(i, merged);
                proof {
                    assert(self@ =~= list_step(st, ls@).0);
                    assert forall|a: int, b: int| 0 <= a < b < self@.len() implies self@[a].sensor_id
                        != self@[b].sensor_id by {
                        assert(self@[a].sensor_id == st[a].sensor_id);
                        assert(self@[b].sensor_id == st[b].sensor_id);
                    }
                    assert forall|a: int| 0 <= a < self@.len() implies metric_ids_unique(
                        #[trigger] self@[a].metrics,
                    ) by {
                        if a != i {
                            assert(self@[a] == st[a]);
                        }
                    }
                }
                let ghost after = self@;
                if name_changed {
                    events.push(SensorStateEvent::SensorNameChanged { sensor_id: ls.sensor_id, name: ls.name.clone() });
                }
                let ghost ev1 = events_view(events@);
                let mut k: usize = 0;
                while k < deleted.len()
                    invariant
                        0 <= k <= deleted@.len(),
                        events_view(events@) == ev1 + events_view(deleted@).take(k as int),
                        events_view(deleted@) == deleted_events(ls.sensor_id, curm.metrics, ls.metrics@),
                        self@ == after,
                    decreases deleted@.len() - k,
                {
                    let ghost e0 = events_view(events@);
                    match &deleted[k] {
                        SensorStateEvent::MetricDeleted { sensor_id, metric_id } => {
                            events.push(SensorStateEvent::MetricDeleted { sensor_id: *sensor_id, metric_id: *metric_id });
                        },
                        _ => {
                            proof {
                                lemma_deleted_events_shape(ls.sensor_id, curm.metrics, ls.metrics@, k as int);
                            }
                        },
                    }
                    proof {
                        lemma_deleted_events_shape(ls.sensor_id, curm.metrics, ls.metrics@, k as int);
                        assert(events_view(events@) =~= e0.push(events_view(deleted@)[k as int]));
                        assert(events_view(deleted@).take(k + 1) =~= events_view(deleted@).take(k as int).push(events_view(deleted@)[k as int]));
                    }
                    k += 1;
                }
                proof {
                    assert(events_view(deleted@).take(k as int) =~= events_view(deleted@));
                }
                let ghost ev2 = events_view(events@);
                events.push(SensorStateEvent::ExistingLinkedSensorLoaded(ls.copy_linked()));
                proof {
                    assert(events_view(events@) =~= ev2.push(EventModel::Relinked(ls@)));
                    assert(events_view(events@) =~= ev0 + list_step(st, ls@).1);
                }
            },
        }
    }

    /// Merges a full sensor list: unknown sensors are added with no metrics;
    /// known ones lose the metrics the list no longer names and take its name.
    /// Sensors missing from the list stay.
    pub fn event_sensor_list(&mut self, linked_sensors: &Vec<Sensor<LinkedMetric>>) -> (r: Vec<
        SensorStateEvent,
    >)
        requires
            old(self).wf(),
        ensures
            final(self).wf(),
            final(self)@ == apply_list(old(self)@, Seq::new(linked_sensors@.len(), |i: int| linked_sensors@[i]@)).0,
            events_view(r@) == apply_list(old(self)@, Seq::new(linked_sensors@.len(), |i: int| linked_sensors@[i]@)).1,
    {
        let ghost st = self@;
        let ghost ls = Seq::new(linked_sensors@.len(), |i: int| linked_sensors@[i]@);
        let mut events: Vec<SensorStateEvent> = Vec::new();
        let mut i: usize = 0;
        proof {
            assert(ls.take(0) =~= Seq::<SensorModel<LinkedMetric>>::empty());
            assert(events_view(events@) =~= Seq::<EventModel>::empty());
        }
        while i < linked_sensors.len()
            invariant
                ls == Seq::new(linked_sensors@.len(), |i: int| linked_sensors@[i]@),
                0 <= i <= linked_sensors@.len(),
                self.wf(),
                self@ == apply_list(st, ls.take(i as int)).0,
                events_view(events@) == apply_list(st, ls.take(i as int)).1,
            decreases linked_sensors@.len() - i,
        {
            proof {
                assert(ls.take(i + 1).drop_last() =~= ls.take(i as int));
            }
            self.merge_linked_sensor(&linked_sensors[i], &mut events);
            i += 1;
        }
        proof {
            assert(ls.take(i as int) =~= ls);
        }
        events
    }
}

proof fn lemma_index_of_prefix(st: SensorsModel, id: SensorId, k: int)
    requires
        0 <= k <= st.len(),
        index_of(st.take(k), id) >= 0,
    ensures
        index_of(st, id) == index_of(st.take(k), id),
    decreases st.len() - k,
{
    if k < st.len() {
        assert(st.take(k + 1).drop_last() =~= st.take(k));
        lemma_index_of_prefix(st, id, k + 1);
    } else {
        assert(st.take(k) =~= st);
    }
}

proof fn lemma_kept_sub(ms: Seq<Metric>, ls: Seq<LinkedMetric>)
    requires
        metric_ids_unique(ms),
    ensures
        metric_ids_unique(kept_metrics(ms, ls)),
        forall|i: int|
            0 <= i < kept_metrics(ms, ls).len() ==> exists|j: int|
                0 <= j < ms.len() && ms[j] == #[trigger] kept_metrics(ms, ls)[i],
    decreases ms.len(),
{
    if ms.len() > 0 {
        let m0 = ms.drop_last();
        assert forall|i: int, j: int| 0 <= i < j < m0.len() implies metric_id_of(m0[i]) != metric_id_of(
            m0[j],
        ) by {
            assert(m0[i] == ms[i] && m0[j] == ms[j]);
        }
        lemma_kept_sub(m0, ls);
        let k0 = kept_metrics(m0, ls);
        let k = kept_metrics(ms, ls);
        assert forall|i: int| 0 <= i < k.len() implies exists|j: int|
            0 <= j < ms.len() && ms[j] == #[trigger] k[i] by {
            if i < k0.len() {
                let j = choose|j: int| 0 <= j < m0.len() && m0[j] == k0[i];
                assert(ms[j] == k[i]);
            } else {
                assert(ms[ms.len() - 1] == k[i]);
            }
        }
        if linked_has(ls, metric_id_of(ms.last())) {
            assert forall|a: int, b: int| 0 <= a < b < k.len() implies metric_id_of(k[a]) != metric_id_of(
                k[b],
            ) by {
                if b == k.len() - 1 {
                    let j = choose|j: int| 0 <= j < m0.len() && m0[j] == k0[a];
                    assert(ms[j] == m0[j]);
                    assert(metric_id_of(ms[j]) != metric_id_of(ms[ms.len() - 1]));
                } else {
                    assert(k[a] == k0[a] && k[b] == k0[b]);
                }
            }
        }
    }
}

proof fn lemma_deleted_events_shape(sid: SensorId, ms: Seq<Metric>, ls: Seq<LinkedMetric>, k: int)
    requires
        0 <= k < deleted_events(sid, ms, ls).len(),
    ensures
        deleted_events(sid, ms, ls)[k] matches EventModel::Other(
            SensorStateEvent::MetricDeleted { sensor_id, .. },
        ) && sensor_id == sid,
    decreases ms.len(),
{
    if ms.len() > 0 {
        let r = deleted_events(sid, ms.drop_last(), ls);
        if k < r.len() {
            lemma_deleted_events_shape(sid, ms.drop_last(), ls, k);
        }
    }
}


/// Why an inbound message could not be applied.
#[derive(Clone, Copy, Debug, PartialEq, Eq, Structural)]
pub enum StateError {
    /// The message names a sensor the mirror does not hold.
    UnknownSensor { sensor_id: SensorId },
    /// The payload does not fit its topic (wrong kind, or another identifier).
    MismatchedPayload,
    /// The payload lacks a field the protocol requires.
    Malformed,
    /// The topic is neither a reply nor a livedata push.
    UnknownTopic,
}

/// Position of the first metric with id `id`, or -1.
pub open spec fn metric_index(ms: Seq<Metric>, id: MetricId) -> int
    decreases ms.len(),
{
    if ms.len() == 0 {
        -1
    } else {
        let r = metric_index(ms.drop_last(), id);
        if r >= 0 {
            r
        } else if metric_id_of(ms.last()) == id {
            ms.len() - 1
        } else {
            -1
        }
    }
}

/// `m` with its value annotation replaced (a custom metric only).
pub open spec fn annotated(m: Metric, a: String) -> Metric {
    match m {
        Metric::Custom { name, metric_id, value_type, .. } => Metric::Custom {
            name,
            metric_id,
            value_annotation: a,
            value_type,
        },
        _ => m,
    }
}

/// A described metric merged into a known one: the metric after the merge and
/// the events, name first.
pub open spec fn merge_metric(sid: SensorId, m: Metric, d: Metric) -> (Metric, Seq<EventModel>) {
    let mid = metric_id_of(m);
    let name_changed = metric_name_of(m)@ != metric_name_of(d)@;
    let m1 = if name_changed {
        renamed(m, metric_name_of(d))
    } else {
        m
    };
    let e1 = if name_changed {
        seq![
            EventModel::Other(
                SensorStateEvent::MetricNameChanged {
                    sensor_id: sid,
                    metric_id: mid,
                    name: metric_name_of(d),
                },
            ),
        ]
    } else {
        Seq::empty()
    };
    match (m1, d) {
        (
            Metric::Custom { value_annotation: a, .. },
            Metric::Custom { value_annotation: b, .. },
        ) => if a@ != b@ {
            (
                annotated(m1, b),
                e1.push(
                    EventModel::Other(
                        SensorStateEvent::MetricValueAnnotationChanged {
                            sensor_id: sid,
                            metric_id: mid,
                            annotation: b,
                        },
                    ),
                ),
            )
        } else {
            (m1, e1)
        },
        _ => (m1, e1),
    }
}

/// A metric description for sensor `sid`, metric `mid`.
pub open spec fn describe_step(st: SensorsModel, sid: SensorId, mid: MetricId, d: Metric) -> Result<
    (SensorsModel, Seq<EventModel>),
    StateError,
> {
    let i = index_of(st, sid);
    if metric_id_of(d) != mid {
        Err(StateError::MismatchedPayload)
    } else if i < 0 {
        Err(StateError::UnknownSensor { sensor_id: sid })
    } else {
        let cur = st[i];
        let j = metric_index(cur.metrics, mid);
        if j < 0 {
            Ok(
                (
                    st.update(i, SensorModel { metrics: cur.metrics.push(d), ..cur }),
                    seq![EventModel::Other(SensorStateEvent::NewMetricLoaded { sensor_id: sid, metric: d })],
                ),
            )
        } else {
            let (m2, evs) = merge_metric(sid, cur.metrics[j], d);
            Ok((st.update(i, SensorModel { metrics: cur.metrics.update(j, m2), ..cur }), evs))
        }
    }
}

/// A sensor the client created: stored with no metrics, replacing one with its
/// id; the event carries the sensor as received.
pub open spec fn create_step(st: SensorsModel, s: SensorModel<Metric>) -> (SensorsModel, Seq<EventModel>) {
    let stored = SensorModel { metrics: Seq::empty(), ..s };
    let i = index_of(st, s.sensor_id);
    (
        if i < 0 {
            insert_sorted(st, stored)
        } else {
            st.update(i, stored)
        },
        seq![EventModel::Created(s)],
    )
}

/// A deleted sensor leaves the mirror.
pub open spec fn delete_step(st: SensorsModel, sid: SensorId) -> SensorsModel {
    let i = index_of(st, sid);
    if i < 0 {
        st
    } else {
        st.remove(i)
    }
}

proof fn lemma_metric_index_range(ms: Seq<Metric>, id: MetricId)
    ensures
        -1 <= metric_index(ms, id) < ms.len(),
        metric_index(ms, id) >= 0 ==> metric_id_of(ms[metric_index(ms, id)]) == id,
        metric_index(ms, id) < 0 ==> forall|i: int| 0 <= i < ms.len() ==> metric_id_of(ms[i]) != id,
    decreases ms.len(),
{
    if ms.len() > 0 {
        lemma_metric_index_range(ms.drop_last(), id);
        assert forall|i: int| 0 <= i < ms.len() - 1 implies ms[i] == ms.drop_last()[i] by {}
    }
}

proof fn lemma_metric_index_prefix(ms: Seq<Metric>, id: MetricId, k: int)
    requires
        0 <= k <= ms.len(),
        metric_index(ms.take(k), id) >= 0,
    ensures
        metric_index(ms, id) == metric_index(ms.take(k), id),
    decreases ms.len() - k,
{
    if k < ms.len() {
        assert(ms.take(k + 1).drop_last() =~= ms.take(k));
        lemma_metric_index_prefix(ms, id, k + 1);
    } else {
        assert(ms.take(k) =~= ms);
    }
}

/// Position of the metric with id `id` among `ms`, if any.
fn find_metric(ms: &Vec<Metric>, id: MetricId) -> (r: Option<usize>)
    ensures
        metric_index(ms@, id) < 0 <==> r is None,
        r matches Some(k) ==> k == metric_index(ms@, id),
{
    let n = ms.len();
    let mut i: usize = 0;
    while i < n
        invariant
            n == ms@.len(),
            0 <= i <= n,
            metric_index(ms@.take(i as int), id) == -1,
        decreases n - i,
    {
        proof {
            assert(ms@.take(i + 1).drop_last() =~= ms@.take(i as int));
        }
        if ms[i].metric_id() == id {
            proof {
                lemma_metric_index_prefix(ms@, id, i as int + 1);
            }
            return Some(i);
        }
        i += 1;
    }
    proof {
        assert(ms@.take(n as int) =~= ms@);
    }
    None
}

fn merge_metric_exec(sid: SensorId, m: &Metric, d: &Metric) -> (r: (Metric, Vec<SensorStateEvent>))
    ensures
        r.0 == merge_metric(sid, *m, *d).0,
        events_view(r.1@) == merge_metric(sid, *m, *d).1,
{
    let mid = m.metric_id();
    let mut events: Vec<SensorStateEvent> = Vec::new();
    let mut m1 = m.copy();
    let name_changed = !(*m.name() == *d.name());
    if name_changed {
        m1.rename(d.name().clone());
        events.push(SensorStateEvent::MetricNameChanged { sensor_id: sid, metric_id: mid, name: d.name().clone() });
    }
    let ghost sm1 = if name_changed { renamed(*m, metric_name_of(*d)) } else { *m };
    proof {
        assert(m1 == sm1);
        assert(name_changed == (metric_name_of(*m)@ != metric_name_of(*d)@));
    }
    let ghost e1 = events_view(events@);
    let mut annotation: Option<String> = None;
    if let Metric::Custom { value_annotation: a, .. } = &m1 {
        if let Metric::Custom { value_annotation: b, .. } = d {
            if !(*a == *b) {
                annotation = Some(b.clone());
            }
        }
    }
    match annotation {
        Some(b) => {
            events.push(
                SensorStateEvent::MetricValueAnnotationChanged {
                    sensor_id: sid,
                    metric_id: mid,
                    annotation: b.clone(),
                },
            );
            let m2 = match m1 {
                Metric::Custom { name, metric_id, value_type, .. } => Metric::Custom {
                    name,
                    metric_id,
                    value_annotation: b,
                    value_type,
                },
                other => other,
            };
            proof {
                assert(events_view(events@) =~= e1.push(events@.last()@));
            }
            (m2, events)
        },
        None => (m1, events),
    }
}

/// The event of an acknowledgement when its text is the expected one, else none.
pub open spec fn ack_events(text: Seq<char>, expected: Seq<char>, e: EventModel) -> Seq<EventModel> {
    if text == expected {
        seq![e]
    } else {
        Seq::empty()
    }
}

/// Whether `message` is exactly `expected`.
pub fn is_text(message: &String, expected: &str) -> (r: bool)
    ensures
        r == (message@ == expected@),
{
    *message == String::from_str(expected)
}

fn no_events() -> (r: Vec<SensorStateEvent>)
    ensures
        events_view(r@) == Seq::<EventModel>::empty(),
{
    let r: Vec<SensorStateEvent> = Vec::new();
    proof {
        assert(events_view(r@) =~= Seq::<EventModel>::empty());
    }
    r
}

pub open spec fn created_events(sid: SensorId, c: Seq<CreateMetricResponsePayload>) -> Seq<EventModel> {
    Seq::new(
        c.len(),
        |i: int|
            EventModel::Other(SensorStateEvent::NewMetricCreated { sensor_id: sid, metric_id: c[i].metric_id }),
    )
}

pub open spec fn livedata_events(sid: SensorId, v: Seq<PushMetricValueResponse>, ts: u64) -> Seq<EventModel> {
    Seq::new(
        v.len(),
        |i: int|
            EventModel::Other(
                SensorStateEvent::Livedata {
                    sensor_id: sid,
                    metric_id: v[i].metric_id,
                    value: v[i].value,
                    timestamp: ts,
                },
            ),
    )
}

impl SensorsState {
    /// Merges the full description of metric `metric_id` of sensor `sensor_id`:
    /// a new metric is appended; a known one takes the name and, for custom
    /// metrics, the value annotation. Type and unit never change here.
    pub fn event_metric_describe(&mut self, sensor_id: SensorId, metric_id: MetricId, described: &Metric) -> (r:
        Result<Vec<SensorStateEvent>, StateError>)
        requires
            old(self).wf(),
        ensures
            final(self).wf(),
            match describe_step(old(self)@, sensor_id, metric_id, *described) {
                Ok((st, evs)) => r matches Ok(v) && final(self)@ == st && events_view(v@) == evs,
                Err(e) => r == Err::<Vec<SensorStateEvent>, StateError>(e) && final(self)@ == old(self)@,
            },
    {
        let ghost st = self@;
        if described.metric_id() != metric_id {
            return Err(StateError::MismatchedPayload);
        }
        proof {
            lemma_index_of_range(st, sensor_id);
        }
        let i = match self.find(sensor_id) {
            Some(i) => i,
            None => {
                return Err(StateError::UnknownSensor { sensor_id });
            },
        };
        let cur = &self.sensors[i];
        let ghost curm = cur@;
        proof {
            assert(curm == st[i as int]);
            lemma_metric_index_range(curm.metrics, metric_id);
        }
        let mut metrics = copy_metric_vec(&cur.metrics);
        let events = match find_metric(&cur.metrics, metric_id) {
            None => {
                metrics.push(described.copy());
                let mut v: Vec<SensorStateEvent> = Vec::new();
                v.push(SensorStateEvent::NewMetricLoaded { sensor_id, metric: described.copy() });
                proof {
                    assert(events_view(v@) =~= describe_step(st, sensor_id, metric_id, *described).unwrap().1);
                    assert forall|a: int, b: int| 0 <= a < b < metrics@.len() implies metric_id_of(metrics@[a])
                        != metric_id_of(metrics@[b]) by {
                        assert(st[i as int].metrics == curm.metrics);
                        assert(metric_ids_unique(st[i as int].metrics));
                        if b == metrics@.len() - 1 {
                            assert(metrics@[a] == curm.metrics[a]);
                        } else {
                            assert(metrics@[a] == curm.metrics[a] && metrics@[b] == curm.metrics[b]);
                        }
                    }
                }
                v
            },
            Some(j) => {
                let (m2, v) = merge_metric_exec(sensor_id, &cur.metrics[j], described);
                metrics.set(j, m2);
                proof {
                    assert(metric_ids_unique(st[i as int].metrics));
                    assert forall|a: int, b: int| 0 <= a < b < metrics@.len() implies metric_id_of(metrics@[a])
                        != metric_id_of(metrics@[b]) by {
                        if a != j && b != j {
                            assert(metrics@[a] == curm.metrics[a] && metrics@[b] == curm.metrics[b]);
                        } else if a == j {
                            assert(metrics@[b] == curm.metrics[b]);
                            lemma_merge_metric_id(sensor_id, curm.metrics[a], *described);
                        } else {
                            assert(metrics@[a] == curm.metrics[a]);
                            lemma_merge_metric_id(sensor_id, curm.metrics[b], *described);
                        }
                    }
                }
                v
            },
        };
        let merged = Sensor {
            name: cur.name.clone(),
            sensor_id: cur.sensor_id,
            metrics,
            connector_id: cur.connector_id,
        };
        self.sensors.set(i, merged);
        proof {
            assert(self@ =~= describe_step(st, sensor_id, metric_id, *described).unwrap().0);
            assert forall|a: int, b: int| 0 <= a < b < self@.len() implies self@[a].sensor_id
                != self@[b].sensor_id by {
                assert(self@[a].sensor_id == st[a].sensor_id);
                assert(self@[b].sensor_id == st[b].sensor_id);
            }
            assert forall|a: int| 0 <= a < self@.len() implies metric_ids_unique(
                #[trigger] self@[a].metrics,
            ) by {
                if a != i {
                    assert(self@[a] == st[a]);
                }
            }
        }
        Ok(events)
    }

    /// Stores a sensor the client created, with no metrics yet.
    pub fn event_sensor_create(&mut self, sensor: &Sensor<Metric>) -> (r: Vec<SensorStateEvent>)
        requires
            old(self).wf(),
        ensures
            final(self).wf(),
            final(self)@ == create_step(old(self)@, sensor@).0,
            events_view(r@) == create_step(old(self)@, sensor@).1,
    {
        let ghost st = self@;
        proof {
            lemma_index_of_range(st, sensor.sensor_id);
        }
        let stored = Sensor {
            name: sensor.name.clone(),
            sensor_id: sensor.sensor_id,
            metrics: Vec::new(),
            connector_id: sensor.connector_id,
        };
        let event = SensorStateEvent::NewSensorCreated(sensor.copy_full());
        match self.find(sensor.sensor_id) {
            Some(i) => {
                self.sensors.set(i, stored);
                proof {
                    assert forall|a: int, b: int| 0 <= a < b < self@.len() implies self@[a].sensor_id.value
                        < self@[b].sensor_id.value by {
                        assert(self@[a].sensor_id == st[a].sensor_id);
                        assert(self@[b].sensor_id == st[b].sensor_id);
                    }
                    assert forall|a: int| 0 <= a < self@.len() implies metric_ids_unique(
                        #[trigger] self@[a].metrics,
                    ) by {
                        if a != i {
                            assert(self@[a] == st[a]);
                        }
                    }
                }
            },
            None => {
                self.insert_sensor(stored);
            },
        }
        let mut r: Vec<SensorStateEvent> = Vec::new();
        r.push(event);
        proof {
            assert(self@ =~= create_step(st, sensor@).0);
            assert(events_view(r@) =~= create_step(st, sensor@).1);
        }
        r
    }

    /// Puts a new sensor at its place in id order.
    fn insert_sensor(&mut self, x: Sensor<Metric>)
        requires
            old(self).wf(),
            index_of(old(self)@, x.sensor_id) < 0,
            metric_ids_unique(x.metrics@),
        ensures
            final(self).wf(),
            final(self)@ == insert_sorted(old(self)@, x@),
    {
        let ghost st = self@;
        let ghost xm = x@;
        proof {
            lemma_index_of_range(st, x.sensor_id);
        }
        let n = self.sensors.len();
        let mut p: usize = 0;
        while p < n && self.sensors[p].sensor_id.value < x.sensor_id.value
            invariant
                n == st.len(),
                self@ == st,
                sensors_wf(st),
                0 <= p <= n,
                forall|i: int| 0 <= i < p ==> (#[trigger] st[i]).sensor_id.value < x.sensor_id.value,
            decreases n - p,
        {
            proof {
                assert(self.sensors@[p as int]@ == st[p as int]);
            }
            p += 1;
        }
        proof {
            if p < n {
                assert(self.sensors@[p as int]@ == st[p as int]);
            }
            assert forall|i: int| p <= i < st.len() implies (#[trigger] st[i]).sensor_id.value
                > x.sensor_id.value by {
                assert(st[i].sensor_id != x.sensor_id);
                if i > p {
                    assert(st[p as int].sensor_id.value < st[i].sensor_id.value);
                    assert(st[p as int].sensor_id != x.sensor_id);
                }
            }
            lemma_sorted_pos(st, x.sensor_id, p as int);
        }
        self.sensors.insert(p, x);
        proof {
            assert(self@ =~= st.insert(p as int, xm));
            assert forall|i: int, j: int| 0 <= i < j < self@.len() implies self@[i].sensor_id.value
                < self@[j].sensor_id.value by {
                if j < p {
                } else if j == p {
                } else if i < p {
                    assert(self@[j] == st[j - 1]);
                } else if i == p {
                    assert(self@[j] == st[j - 1]);
                } else {
                    assert(self@[i] == st[i - 1]);
                    assert(self@[j] == st[j - 1]);
                }
            }
            assert forall|a: int| 0 <= a < self@.len() implies metric_ids_unique(
                #[trigger] self@[a].metrics,
            ) by {
                if a < p {
                    assert(self@[a] == st[a]);
                } else if a > p {
                    assert(self@[a] == st[a - 1]);
                }
            }
        }
    }

    /// Acknowledgement of a sensor update: it does not say what changed, so
    /// the sensor needs a refresh; only the server's confirmation text counts.
    pub fn event_sensor_update(&self, sensor_id: SensorId, message: &String) -> (r: Vec<SensorStateEvent>)
        ensures
            events_view(r@) == ack_events(
                message@,
                "Sensor was changed."@,
                EventModel::Other(SensorStateEvent::SensorUpdated { sensor_id }),
            ),
    {
        if is_text(message, "Sensor was changed.") {
            let r = vec![SensorStateEvent::SensorUpdated { sensor_id }];
            proof {
                assert(events_view(r@) =~= seq![EventModel::Other(SensorStateEvent::SensorUpdated { sensor_id })]);
            }
            r
        } else {
            no_events()
        }
    }

    /// Acknowledgement of a sensor deletion: on the server's confirmation text
    /// the sensor and its metrics leave.
    pub fn event_sensor_delete(&mut self, sensor_id: SensorId, message: &String) -> (r: Vec<SensorStateEvent>)
        requires
            old(self).wf(),
        ensures
            final(self).wf(),
            message@ == "Sensor was deleted."@ ==> final(self)@ == delete_step(old(self)@, sensor_id),
            message@ != "Sensor was deleted."@ ==> final(self)@ == old(self)@,
            events_view(r@) == ack_events(
                message@,
                "Sensor was deleted."@,
                EventModel::Other(SensorStateEvent::SensorDeleted { sensor_id }),
            ),
    {
        if is_text(message, "Sensor was deleted.") {
            self.remove_sensor(sensor_id)
        } else {
            no_events()
        }
    }

    fn remove_sensor(&mut self, sensor_id: SensorId) -> (r: Vec<SensorStateEvent>)
        requires
            old(self).wf(),
        ensures
            final(self).wf(),
            final(self)@ == delete_step(old(self)@, sensor_id),
            events_view(r@) == seq![EventModel::Other(SensorStateEvent::SensorDeleted { sensor_id })],
    {
        let ghost st = self@;
        proof {
            lemma_index_of_range(st, sensor_id);
        }
        match self.find(sensor_id) {
            Some(i) => {
                self.sensors.remove(i);
                proof {
                    assert(self@ =~= st.remove(i as int));
                    assert forall|a: int, b: int| 0 <= a < b < self@.len() implies self@[a].sensor_id
                        != self@[b].sensor_id by {
                        let a0 = if a < i { a } else { a + 1 };
                        let b0 = if b < i { b } else { b + 1 };
                        assert(self@[a] == st[a0] && self@[b] == st[b0]);
                    }
                    assert forall|a: int| 0 <= a < self@.len() implies metric_ids_unique(
                        #[trigger] self@[a].metrics,
                    ) by {
                        let a0 = if a < i { a } else { a + 1 };
                        assert(self@[a] == st[a0]);
                    }
                }
            },
            None => {},
        }
        let r = vec![SensorStateEvent::SensorDeleted { sensor_id }];
        proof {
            assert(events_view(r@) =~= seq![EventModel::Other(SensorStateEvent::SensorDeleted { sensor_id })]);
        }
        r
    }

    /// Acknowledgement of a metric creation: one `NewMetricCreated` per entry,
    /// in the order of the reply.
    pub fn event_metric_create(&self, sensor_id: SensorId, created: &Vec<CreateMetricResponsePayload>) -> (r: Vec<
        SensorStateEvent,
    >)
        ensures
            events_view(r@) == created_events(sensor_id, created@),
    {
        let mut r: Vec<SensorStateEvent> = Vec::new();
        let mut i: usize = 0;
        while i < created.len()
            invariant
                0 <= i <= created@.len(),
                events_view(r@) == created_events(sensor_id, created@).take(i as int),
            decreases created@.len() - i,
        {
            let ghost r0 = events_view(r@);
            r.push(SensorStateEvent::NewMetricCreated { sensor_id, metric_id: created[i].metric_id });
            proof {
                assert(events_view(r@) =~= r0.push(r@.last()@));
            }
            i += 1;
            proof {
                assert(events_view(r@) =~= created_events(sensor_id, created@).take(i as int));
            }
        }
        proof {
            assert(created_events(sensor_id, created@).take(i as int) =~= created_events(sensor_id, created@));
        }
        r
    }

    /// Acknowledgement of a metric update: the sensor's metrics need their
    /// descriptions again; only the server's confirmation text counts.
    pub fn event_metric_update(&self, sensor_id: SensorId, message: &String) -> (r: Vec<SensorStateEvent>)
        ensures
            events_view(r@) == ack_events(
                message@,
                "All metrics were successfully modified."@,
                EventModel::Other(SensorStateEvent::SensorMetricsUpdated { sensor_id }),
            ),
    {
        if is_text(message, "All metrics were successfully modified.") {
            let r = vec![SensorStateEvent::SensorMetricsUpdated { sensor_id }];
            proof {
                assert(events_view(r@) =~= seq![EventModel::Other(SensorStateEvent::SensorMetricsUpdated { sensor_id })]);
            }
            r
        } else {
            no_events()
        }
    }

    /// Acknowledgement of a metric deletion: it names only the sensor, not the
    /// metrics, so the sensor needs a refresh, whose listing then yields the
    /// `MetricDeleted` events; only the server's confirmation text counts.
    pub fn event_metric_delete(&self, sensor_id: SensorId, message: &String) -> (r: Vec<SensorStateEvent>)
        ensures
            events_view(r@) == ack_events(
                message@,
                "All metrics were successfully deleted."@,
                EventModel::Other(SensorStateEvent::SensorUpdated { sensor_id }),
            ),
    {
        if is_text(message, "All metrics were successfully deleted.") {
            let r = vec![SensorStateEvent::SensorUpdated { sensor_id }];
            proof {
                assert(events_view(r@) =~= seq![EventModel::Other(SensorStateEvent::SensorUpdated { sensor_id })]);
            }
            r
        } else {
            no_events()
        }
    }

    /// A livedata push: one `Livedata` event per value, in order; a push
    /// without a timestamp is malformed.
    pub fn event_livedata(&self, sensor_id: SensorId, values: &MetricsArrayResponse<PushMetricValueResponse>) -> (r:
        Result<Vec<SensorStateEvent>, StateError>)
        ensures
            values.timestamp is None ==> r == Err::<Vec<SensorStateEvent>, StateError>(StateError::Malformed),
            values.timestamp matches Some(ts) ==> (r matches Ok(v) && events_view(v@) == livedata_events(
                sensor_id,
                values.metrics@,
                ts,
            )),
    {
        let ts = match values.timestamp {
            Some(ts) => ts,
            None => {
                return Err(StateError::Malformed);
            },
        };
        let mut r: Vec<SensorStateEvent> = Vec::new();
        let mut i: usize = 0;
        while i < values.metrics.len()
            invariant
                0 <= i <= values.metrics@.len(),
                events_view(r@) == livedata_events(sensor_id, values.metrics@, ts).take(i as int),
            decreases values.metrics@.len() - i,
        {
            let u = &values.metrics[i];
            let ghost r0 = events_view(r@);
            r.push(
                SensorStateEvent::Livedata {
                    sensor_id,
                    metric_id: u.metric_id,
                    value: u.value.copy(),
                    timestamp: ts,
                },
            );
            proof {
                assert(events_view(r@) =~= r0.push(r@.last()@));
            }
            i += 1;
            proof {
                assert(events_view(r@) =~= livedata_events(sensor_id, values.metrics@, ts).take(i as int));
            }
        }
        proof {
            assert(livedata_events(sensor_id, values.metrics@, ts).take(i as int) =~= livedata_events(
                sensor_id,
                values.metrics@,
                ts,
            ));
        }
        Ok(r)
    }

    /// A reply on an error topic.
    pub fn event_error(&self, error: &ErrorResponse) -> (r: Vec<SensorStateEvent>)
        ensures
            events_view(r@) == seq![
                EventModel::Other(SensorStateEvent::Error { message: error.message, code: error.code }),
            ],
    {
        let r = vec![SensorStateEvent::Error { message: error.message.clone(), code: error.code }];
        proof {
            assert(events_view(r@) =~= seq![
                EventModel::Other(SensorStateEvent::Error { message: error.message, code: error.code }),
            ]);
        }
        r
    }
}

fn copy_metric_vec(v: &Vec<Metric>) -> (r: Vec<Metric>)
    ensures
        r@ == v@,
{
    crate::sensor::copy_metrics(v)
}

proof fn lemma_merge_metric_id(sid: SensorId, m: Metric, d: Metric)
    ensures
        metric_id_of(merge_metric(sid, m, d).0) == metric_id_of(m),
{
}


/// Position of the first sensor named `name`, or -1.
pub open spec fn first_named(st: SensorsModel, name: Seq<char>) -> int
    decreases st.len(),
{
    if st.len() == 0 {
        -1
    } else {
        let r = first_named(st.drop_last(), name);
        if r >= 0 {
            r
        } else if st.last().name@ == name {
            st.len() - 1
        } else {
            -1
        }
    }
}

/// Position of the first metric named `name`, or -1.
pub open spec fn first_metric_named(ms: Seq<Metric>, name: Seq<char>) -> int
    decreases ms.len(),
{
    if ms.len() == 0 {
        -1
    } else {
        let r = first_metric_named(ms.drop_last(), name);
        if r >= 0 {
            r
        } else if metric_name_of(ms.last())@ == name {
            ms.len() - 1
        } else {
            -1
        }
    }
}

pub open spec fn metric_ids_of(ms: Seq<Metric>) -> Seq<MetricId> {
    Seq::new(ms.len(), |j: int| metric_id_of(ms[j]))
}

pub open spec fn sensor_id_by_name_spec(st: SensorsModel, name: Seq<char>) -> Option<SensorId> {
    let i = first_named(st, name);
    if i < 0 {
        None
    } else {
        Some(st[i].sensor_id)
    }
}

pub open spec fn metric_id_by_name_spec(st: SensorsModel, sid: SensorId, name: Seq<char>) -> Option<
    MetricId,
> {
    let i = index_of(st, sid);
    if i < 0 {
        None
    } else {
        let j = first_metric_named(st[i].metrics, name);
        if j < 0 {
            None
        } else {
            Some(metric_id_of(st[i].metrics[j]))
        }
    }
}

/// Requests the client issues in reaction to an event: the description of
/// every listed metric not yet described, of each created metric, of every
/// metric of a sensor whose metrics changed, and a new sensor list when a
/// sensor changed in an undescribed way.
pub open spec fn follow_up_spec(st: SensorsModel, e: EventModel) -> Seq<crate::topic::MqttScheme> {
    match e {
        EventModel::Linked(ls) => pending_describes(st, ls),
        EventModel::Relinked(ls) => pending_describes(st, ls),
        EventModel::Other(SensorStateEvent::NewMetricCreated { sensor_id, metric_id }) => seq![
            crate::topic::MqttScheme::MetricDescribe(sensor_id, metric_id),
        ],
        EventModel::Other(SensorStateEvent::SensorUpdated { .. }) => seq![
            crate::topic::MqttScheme::SensorList,
        ],
        EventModel::Other(SensorStateEvent::SensorMetricsUpdated { sensor_id }) => {
            let i = index_of(st, sensor_id);
            if i < 0 {
                Seq::empty()
            } else {
                Seq::new(
                    st[i].metrics.len(),
                    |j: int|
                        crate::topic::MqttScheme::MetricDescribe(
                            sensor_id,
                            metric_id_of(st[i].metrics[j]),
                        ),
                )
            }
        },
        _ => Seq::empty(),
    }
}

/// Whether the mirror holds the full description of metric `mid` of sensor `sid`.
pub open spec fn described(st: SensorsModel, sid: SensorId, mid: MetricId) -> bool {
    let i = index_of(st, sid);
    i >= 0 && metric_index(st[i].metrics, mid) >= 0
}

/// Describe requests for the listed metrics without a full local description,
/// in listing order.
pub open spec fn pending_describes(st: SensorsModel, ls: SensorModel<LinkedMetric>) -> Seq<
    crate::topic::MqttScheme,
>
    decreases ls.metrics.len(),
{
    if ls.metrics.len() == 0 {
        Seq::empty()
    } else {
        let r = pending_describes(st, SensorModel { metrics: ls.metrics.drop_last(), ..ls });
        let mid = ls.metrics.last().metric_id;
        if described(st, ls.sensor_id, mid) {
            r
        } else {
            r.push(crate::topic::MqttScheme::MetricDescribe(ls.sensor_id, mid))
        }
    }
}

impl SensorsState {
    /// A copy of every sensor, ascending by id.
    pub fn snapshot(&self) -> (r: Vec<Sensor<Metric>>)
        requires
            self.wf(),
        ensures
            Seq::new(r@.len(), |i: int| r@[i]@) == self@,
            forall|i: int, j: int| 0 <= i < j < r@.len() ==> r@[i].sensor_id.value < r@[j].sensor_id.value,
    {
        let mut r: Vec<Sensor<Metric>> = Vec::new();
        let mut i: usize = 0;
        while i < self.sensors.len()
            invariant
                0 <= i <= self.sensors@.len(),
                r@.len() == i,
                forall|k: int| 0 <= k < i ==> (#[trigger] r@[k])@ == self@[k],
            decreases self.sensors@.len() - i,
        {
            r.push(self.sensors[i].copy_full());
            i += 1;
        }
        proof {
            assert(Seq::new(r@.len(), |i: int| r@[i]@) =~= self@);
            assert forall|i: int, j: int| 0 <= i < j < r@.len() implies r@[i].sensor_id.value
                < r@[j].sensor_id.value by {
                assert(r@[i]@ == self@[i] && r@[j]@ == self@[j]);
            }
        }
        r
    }

    /// The metric ids of a sensor, in order; `None` for an unknown sensor.
    pub fn metric_ids(&self, sensor_id: SensorId) -> (r: Option<Vec<MetricId>>)
        ensures
            index_of(self@, sensor_id) < 0 ==> r is None,
            index_of(self@, sensor_id) >= 0 ==> (r matches Some(v) && v@ == metric_ids_of(
                self@[index_of(self@, sensor_id)].metrics,
            )),
    {
        proof {
            lemma_index_of_range(self@, sensor_id);
        }
        match self.find(sensor_id) {
            None => None,
            Some(i) => {
                let ms = &self.sensors[i].metrics;
                let ghost msm = self@[i as int].metrics;
                let mut v: Vec<MetricId> = Vec::new();
                let mut j: usize = 0;
                while j < ms.len()
                    invariant
                        msm == ms@,
                        0 <= j <= ms@.len(),
                        v@ == metric_ids_of(msm).take(j as int),
                    decreases ms@.len() - j,
                {
                    v.push(ms[j].metric_id());
                    j += 1;
                    proof {
                        assert(v@ =~= metric_ids_of(msm).take(j as int));
                    }
                }
                proof {
                    assert(metric_ids_of(msm).take(j as int) =~= metric_ids_of(msm));
                }
                Some(v)
            },
        }
    }

    /// The least id of a sensor named `name`.
    pub fn sensor_id_by_name(&self, name: &String) -> (r: Option<SensorId>)
        requires
            self.wf(),
        ensures
            r == sensor_id_by_name_spec(self@, name@),
            r is None <==> forall|i: int| 0 <= i < self@.len() ==> self@[i].name@ != name@,
            r matches Some(id) ==> exists|i: int| 0 <= i < self@.len() && self@[i].name@ == name@
                && self@[i].sensor_id == id,
            r matches Some(id) ==> forall|i: int|
                0 <= i < self@.len() && self@[i].name@ == name@ ==> id.value <= self@[i].sensor_id.value,
    {
        proof {
            lemma_first_named(self@, name@);
        }
        let n = self.sensors.len();
        let mut i: usize = 0;
        while i < n
            invariant
                n == self@.len(),
                0 <= i <= n,
                sensors_wf(self@),
                first_named(self@.take(i as int), name@) == -1,
            decreases n - i,
        {
            proof {
                assert(self@.take(i + 1).drop_last() =~= self@.take(i as int));
            }
            if self.sensors[i].name == *name {
                proof {
                    lemma_first_named_prefix(self@, name@, i as int + 1);
                    lemma_first_named(self@, name@);
                    assert forall|j: int| 0 <= j < self@.len() && self@[j].name@ == name@ implies self@[i as int].sensor_id.value
                        <= self@[j].sensor_id.value by {
                        if j < i {
                            assert(self@[j].name@ != name@);
                        }
                    }
                }
                return Some(self.sensors[i].sensor_id);
            }
            i += 1;
        }
        proof {
            assert(self@.take(n as int) =~= self@);
        }
        None
    }

    /// The id of the first metric named `name` of sensor `sensor_id`.
    pub fn metric_id_by_name(&self, sensor_id: SensorId, name: &String) -> (r: Option<MetricId>)
        ensures
            r == metric_id_by_name_spec(self@, sensor_id, name@),
    {
        proof {
            lemma_index_of_range(self@, sensor_id);
        }
        match self.find(sensor_id) {
            None => None,
            Some(i) => {
                let ms = &self.sensors[i].metrics;
                let ghost msm = self@[i as int].metrics;
                let n = ms.len();
                let mut j: usize = 0;
                while j < n
                    invariant
                        msm == ms@,
                        msm == self@[i as int].metrics,
                        i as int == index_of(self@, sensor_id),
                        n == msm.len(),
                        0 <= j <= n,
                        first_metric_named(msm.take(j as int), name@) == -1,
                    decreases n - j,
                {
                    proof {
                        assert(msm.take(j + 1).drop_last() =~= msm.take(j as int));
                    }
                    if *ms[j].name() == *name {
                        proof {
                            lemma_first_metric_named_prefix(msm, name@, j as int + 1);
                        }
                        return Some(ms[j].metric_id());
                    }
                    j += 1;
                }
                proof {
                    assert(msm.take(n as int) =~= msm);
                }
                None
            },
        }
    }

    /// Whether the mirror holds the full description of a metric.
    pub fn is_described(&self, sensor_id: SensorId, metric_id: MetricId) -> (r: bool)
        ensures
            r == described(self@, sensor_id, metric_id),
    {
        proof {
            lemma_index_of_range(self@, sensor_id);
        }
        match self.find(sensor_id) {
            None => false,
            Some(i) => {
                proof {
                    assert(self.sensors@[i as int].metrics@ == self@[i as int].metrics);
                }
                match find_metric(&self.sensors[i].metrics, metric_id) {
                    Some(_) => true,
                    None => false,
                }
            },
        }
    }

    /// The requests to issue in reaction to `event`.
    pub fn follow_up(&self, event: &SensorStateEvent) -> (r: Vec<crate::topic::MqttScheme>)
        ensures
            r@ == follow_up_spec(self@, event@),
    {
        match event {
            SensorStateEvent::NewLinkedSensorLoaded(ls) => self.pending_describes(ls),
            SensorStateEvent::ExistingLinkedSensorLoaded(ls) => self.pending_describes(ls),
            SensorStateEvent::NewMetricCreated { sensor_id, metric_id } => {
                let r = vec![crate::topic::MqttScheme::MetricDescribe(*sensor_id, *metric_id)];
                proof {
                    assert(r@ =~= follow_up_spec(self@, event@));
                }
                r
            },
            SensorStateEvent::SensorUpdated { .. } => {
                let r = vec![crate::topic::MqttScheme::SensorList];
                proof {
                    assert(r@ =~= follow_up_spec(self@, event@));
                }
                r
            },
            SensorStateEvent::SensorMetricsUpdated { sensor_id } => {
                let mut r: Vec<crate::topic::MqttScheme> = Vec::new();
                match self.metric_ids(*sensor_id) {
                    None => {
                        proof {
                            assert(r@ =~= follow_up_spec(self@, event@));
                        }
                    },
                    Some(ids) => {
                        let mut j: usize = 0;
                        while j < ids.len()
                            invariant
                                0 <= j <= ids@.len(),
                                r@ == Seq::new(
                                    j as nat,
                                    |k: int| crate::topic::MqttScheme::MetricDescribe(*sensor_id, ids@[k]),
                                ),
                            decreases ids@.len() - j,
                        {
                            r.push(crate::topic::MqttScheme::MetricDescribe(*sensor_id, ids[j]));
                            j += 1;
                            proof {
                                assert(r@ =~= Seq::new(
                                    j as nat,
                                    |k: int| crate::topic::MqttScheme::MetricDescribe(*sensor_id, ids@[k]),
                                ));
                            }
                        }
                        proof {
                            assert(r@ =~= follow_up_spec(self@, event@));
                        }
                    },
                }
                r
            },
            _ => {
                let r: Vec<crate::topic::MqttScheme> = Vec::new();
                proof {
                    assert(r@ =~= follow_up_spec(self@, event@));
                }
                r
            },
        }
    }

    fn pending_describes(&self, ls: &Sensor<LinkedMetric>) -> (r: Vec<crate::topic::MqttScheme>)
        ensures
            r@ == pending_describes(self@, ls@),
    {
        let mut r: Vec<crate::topic::MqttScheme> = Vec::new();
        let mut j: usize = 0;
        proof {
            assert(ls@.metrics.take(0) =~= Seq::<LinkedMetric>::empty());
        }
        while j < ls.metrics.len()
            invariant
                0 <= j <= ls.metrics@.len(),
                r@ == pending_describes(
                    self@,
                    SensorModel { metrics: ls.metrics@.take(j as int), ..ls@ },
                ),
            decreases ls.metrics@.len() - j,
        {
            let mid = ls.metrics[j].metric_id;
            proof {
                let lj = SensorModel { metrics: ls.metrics@.take(j + 1), ..ls@ };
                assert(lj.metrics.drop_last() =~= ls.metrics@.take(j as int));
                assert(SensorModel { metrics: lj.metrics.drop_last(), ..lj } == SensorModel {
                    metrics: ls.metrics@.take(j as int),
                    ..ls@
                });
            }
            if !self.is_described(ls.sensor_id, mid) {
                r.push(crate::topic::MqttScheme::MetricDescribe(ls.sensor_id, mid));
            }
            j += 1;
        }
        proof {
            assert(ls.metrics@.take(j as int) =~= ls.metrics@);
            assert(SensorModel { metrics: ls.metrics@.take(j as int), ..ls@ } == ls@);
        }
        r
    }
}

proof fn lemma_first_named(st: SensorsModel, name: Seq<char>)
    ensures
        -1 <= first_named(st, name) < st.len(),
        first_named(st, name) >= 0 ==> st[first_named(st, name)].name@ == name,
        forall|j: int|
            0 <= j < st.len() && (first_named(st, name) < 0 || j < first_named(st, name)) ==> st[j].name@
                != name,
    decreases st.len(),
{
    if st.len() > 0 {
        lemma_first_named(st.drop_last(), name);
        assert forall|j: int| 0 <= j < st.len() - 1 implies st[j] == st.drop_last()[j] by {}
    }
}

proof fn lemma_first_named_prefix(st: SensorsModel, name: Seq<char>, k: int)
    requires
        0 <= k <= st.len(),
        first_named(st.take(k), name) >= 0,
    ensures
        first_named(st, name) == first_named(st.take(k), name),
    decreases st.len() - k,
{
    if k < st.len() {
        assert(st.take(k + 1).drop_last() =~= st.take(k));
        lemma_first_named_prefix(st, name, k + 1);
    } else {
        assert(st.take(k) =~= st);
    }
}

proof fn lemma_first_metric_named_prefix(ms: Seq<Metric>, name: Seq<char>, k: int)
    requires
        0 <= k <= ms.len(),
        first_metric_named(ms.take(k), name) >= 0,
    ensures
        first_metric_named(ms, name) == first_metric_named(ms.take(k), name),
    decreases ms.len() - k,
{
    if k < ms.len() {
        assert(ms.take(k + 1).drop_last() =~= ms.take(k));
        lemma_first_metric_named_prefix(ms, name, k + 1);
    } else {
        assert(ms.take(k) =~= ms);
    }
}


proof fn lemma_kept_all(sid: SensorId, ms: Seq<Metric>, ls: Seq<LinkedMetric>)
    requires
        forall|j: int| 0 <= j < ms.len() ==> linked_has(ls, metric_id_of(#[trigger] ms[j])),
    ensures
        kept_metrics(ms, ls) == ms,
        deleted_events(sid, ms, ls) == Seq::<EventModel>::empty(),
    decreases ms.len(),
{
    if ms.len() > 0 {
        let m0 = ms.drop_last();
        assert forall|j: int| 0 <= j < m0.len() implies linked_has(ls, metric_id_of(#[trigger] m0[j])) by {
            assert(m0[j] == ms[j]);
        }
        lemma_kept_all(sid, m0, ls);
        assert(linked_has(ls, metric_id_of(ms[ms.len() - 1])));
        assert(m0.push(ms.last()) =~= ms);
    }
}

proof fn lemma_kept_linked(ms: Seq<Metric>, ls: Seq<LinkedMetric>)
    ensures
        forall|j: int|
            0 <= j < kept_metrics(ms, ls).len() ==> linked_has(
                ls,
                metric_id_of(#[trigger] kept_metrics(ms, ls)[j]),
            ),
    decreases ms.len(),
{
    if ms.len() > 0 {
        let m0 = ms.drop_last();
        lemma_kept_linked(m0, ls);
        let k0 = kept_metrics(m0, ls);
        let k = kept_metrics(ms, ls);
        assert forall|j: int| 0 <= j < k.len() implies linked_has(ls, metric_id_of(#[trigger] k[j])) by {
            if j < k0.len() {
                assert(k[j] == k0[j]);
            }
        }
    }
}

/// Replacing a sensor by one with the same id moves no sensor.
proof fn lemma_index_of_update(st: SensorsModel, j: int, x: SensorModel<Metric>, id: SensorId)
    requires
        0 <= j < st.len(),
        x.sensor_id == st[j].sensor_id,
    ensures
        index_of(st.update(j, x), id) == index_of(st, id),
    decreases st.len(),
{
    let u = st.update(j, x);
    if j < st.len() - 1 {
        assert(u.drop_last() =~= st.drop_last().update(j, x));
        lemma_index_of_update(st.drop_last(), j, x, id);
    } else {
        assert(u.drop_last() =~= st.drop_last());
    }
}

proof fn lemma_index_of_first(st: SensorsModel, id: SensorId)
    ensures
        index_of(st, id) >= 0 ==> forall|j: int| 0 <= j < index_of(st, id) ==> st[j].sensor_id != id,
    decreases st.len(),
{
    if st.len() > 0 {
        lemma_index_of_first(st.drop_last(), id);
        lemma_index_of_range(st.drop_last(), id);
        assert forall|j: int| 0 <= j < st.len() - 1 implies st[j] == st.drop_last()[j] by {}
    }
}

/// The first position holding `id` is `index_of`.
proof fn lemma_index_of_char(st: SensorsModel, id: SensorId, k: int)
    requires
        0 <= k < st.len(),
        st[k].sensor_id == id,
        forall|j: int| 0 <= j < k ==> st[j].sensor_id != id,
    ensures
        index_of(st, id) == k,
    decreases st.len(),
{
    let s0 = st.drop_last();
    if k < st.len() - 1 {
        assert(s0[k] == st[k]);
        assert forall|j: int| 0 <= j < k implies s0[j].sensor_id != id by {
            assert(s0[j] == st[j]);
        }
        lemma_index_of_char(s0, id, k);
    } else {
        lemma_index_of_range(s0, id);
        if index_of(s0, id) >= 0 {
            assert(st[index_of(s0, id)] == s0[index_of(s0, id)]);
        }
    }
}

/// Inserting another sensor shifts a sensor by at most one place.
proof fn lemma_index_of_insert(st: SensorsModel, p: int, x: SensorModel<Metric>, id: SensorId)
    requires
        0 <= p <= st.len(),
        x.sensor_id != id,
        index_of(st, id) >= 0,
    ensures
        ({
            let i = index_of(st, id);
            let i2 = if i < p {
                i
            } else {
                i + 1
            };
            index_of(st.insert(p, x), id) == i2 && st.insert(p, x)[i2] == st[i]
        }),
{
    lemma_index_of_range(st, id);
    lemma_index_of_first(st, id);
    let i = index_of(st, id);
    let u = st.insert(p, x);
    let i2 = if i < p {
        i
    } else {
        i + 1
    };
    assert(u[i2] == st[i]);
    assert forall|j: int| 0 <= j < i2 implies u[j].sensor_id != id by {
        if j < p {
            assert(u[j] == st[j]);
        } else if j > p {
            assert(u[j] == st[j - 1]);
        }
    }
    lemma_index_of_char(u, id, i2);
}

/// A sensor new to the mirror is found where it was inserted.
proof fn lemma_index_of_inserted(st: SensorsModel, p: int, x: SensorModel<Metric>)
    requires
        0 <= p <= st.len(),
        index_of(st, x.sensor_id) < 0,
    ensures
        index_of(st.insert(p, x), x.sensor_id) == p,
{
    lemma_index_of_range(st, x.sensor_id);
    let u = st.insert(p, x);
    assert forall|j: int| 0 <= j < p implies u[j].sensor_id != x.sensor_id by {
        assert(u[j] == st[j]);
    }
    lemma_index_of_char(u, x.sensor_id, p);
}

proof fn lemma_sorted_pos_bound(st: SensorsModel, id: SensorId)
    ensures
        sorted_pos(st, id) <= st.len(),
    decreases st.len(),
{
    if st.len() > 0 {
        lemma_sorted_pos_bound(st.drop_last(), id);
    }
}

/// The mirror holds sensor `l.sensor_id` under the listed name, with only
/// listed metrics.
pub open spec fn reconciled(st: SensorsModel, l: SensorModel<LinkedMetric>) -> bool {
    let i = index_of(st, l.sensor_id);
    &&& i >= 0
    &&& st[i].name@ == l.name@
    &&& forall|j: int|
        0 <= j < st[i].metrics.len() ==> linked_has(l.metrics, metric_id_of(#[trigger] st[i].metrics[j]))
}

pub open spec fn distinct_sensor_ids(ls: Seq<SensorModel<LinkedMetric>>) -> bool {
    forall|a: int, b: int| 0 <= a < b < ls.len() ==> ls[a].sensor_id != ls[b].sensor_id
}

proof fn lemma_step_keeps_reconciled(st: SensorsModel, l: SensorModel<LinkedMetric>, x: SensorModel<LinkedMetric>)
    requires
        reconciled(st, l),
        x.sensor_id != l.sensor_id,
    ensures
        reconciled(list_step(st, x).0, l),
{
    lemma_index_of_range(st, x.sensor_id);
    lemma_index_of_range(st, l.sensor_id);
    let i = index_of(st, l.sensor_id);
    let s2 = list_step(st, x).0;
    let j = index_of(st, x.sensor_id);
    if j < 0 {
        let n = SensorModel {
            name: x.name,
            sensor_id: x.sensor_id,
            metrics: Seq::<Metric>::empty(),
            connector_id: x.connector_id,
        };
        lemma_sorted_pos_bound(st, x.sensor_id);
        lemma_index_of_insert(st, sorted_pos(st, x.sensor_id) as int, n, l.sensor_id);
    } else {
        let cur = st[j];
        let name_changed = cur.name@ != x.name@;
        let merged = SensorModel {
            name: if name_changed {
                x.name
            } else {
                cur.name
            },
            sensor_id: cur.sensor_id,
            metrics: kept_metrics(cur.metrics, x.metrics),
            connector_id: cur.connector_id,
        };
        lemma_index_of_update(st, j, merged, l.sensor_id);
        assert(s2[i] == st[i]);
    }
}

proof fn lemma_step_reconciles(st: SensorsModel, l: SensorModel<LinkedMetric>)
    ensures
        reconciled(list_step(st, l).0, l),
{
    lemma_index_of_range(st, l.sensor_id);
    let j = index_of(st, l.sensor_id);
    let s2 = list_step(st, l).0;
    if j < 0 {
        let n = SensorModel {
            name: l.name,
            sensor_id: l.sensor_id,
            metrics: Seq::<Metric>::empty(),
            connector_id: l.connector_id,
        };
        lemma_sorted_pos_bound(st, l.sensor_id);
        lemma_index_of_inserted(st, sorted_pos(st, l.sensor_id) as int, n);
    } else {
        let cur = st[j];
        let name_changed = cur.name@ != l.name@;
        let merged = SensorModel {
            name: if name_changed {
                l.name
            } else {
                cur.name
            },
            sensor_id: cur.sensor_id,
            metrics: kept_metrics(cur.metrics, l.metrics),
            connector_id: cur.connector_id,
        };
        lemma_index_of_update(st, j, merged, l.sensor_id);
        lemma_kept_linked(cur.metrics, l.metrics);
        assert(s2[j] == merged);
    }
}

proof fn lemma_apply_reconciles(st: SensorsModel, ls: Seq<SensorModel<LinkedMetric>>)
    requires
        distinct_sensor_ids(ls),
    ensures
        forall|k: int| 0 <= k < ls.len() ==> reconciled(apply_list(st, ls).0, #[trigger] ls[k]),
    decreases ls.len(),
{
    if ls.len() > 0 {
        let l0 = ls.drop_last();
        assert forall|a: int, b: int| 0 <= a < b < l0.len() implies l0[a].sensor_id != l0[b].sensor_id by {
            assert(l0[a] == ls[a] && l0[b] == ls[b]);
        }
        lemma_apply_reconciles(st, l0);
        let s1 = apply_list(st, l0).0;
        assert forall|k: int| 0 <= k < ls.len() implies reconciled(apply_list(st, ls).0, #[trigger] ls[k]) by {
            if k < ls.len() - 1 {
                assert(l0[k] == ls[k]);
                lemma_step_keeps_reconciled(s1, ls[k], ls.last());
            } else {
                lemma_step_reconciles(s1, ls.last());
            }
        }
    }
}

proof fn lemma_step_on_reconciled(st: SensorsModel, l: SensorModel<LinkedMetric>)
    requires
        reconciled(st, l),
    ensures
        list_step(st, l) == (st, seq![EventModel::Relinked(l)]),
{
    let i = index_of(st, l.sensor_id);
    lemma_index_of_range(st, l.sensor_id);
    let cur = st[i];
    lemma_kept_all(l.sensor_id, cur.metrics, l.metrics);
    let merged = SensorModel {
        name: cur.name,
        sensor_id: cur.sensor_id,
        metrics: kept_metrics(cur.metrics, l.metrics),
        connector_id: cur.connector_id,
    };
    assert(merged == cur);
    assert(st.update(i, merged) =~= st);
    assert(Seq::<EventModel>::empty() + Seq::<EventModel>::empty() + seq![EventModel::Relinked(l)]
        =~= seq![EventModel::Relinked(l)]);
}

pub open spec fn relinked_events(ls: Seq<SensorModel<LinkedMetric>>) -> Seq<EventModel> {
    Seq::new(ls.len(), |i: int| EventModel::Relinked(ls[i]))
}

proof fn lemma_apply_on_reconciled(st: SensorsModel, ls: Seq<SensorModel<LinkedMetric>>)
    requires
        forall|k: int| 0 <= k < ls.len() ==> reconciled(st, #[trigger] ls[k]),
    ensures
        apply_list(st, ls) == (st, relinked_events(ls)),
    decreases ls.len(),
{
    if ls.len() > 0 {
        let l0 = ls.drop_last();
        assert forall|k: int| 0 <= k < l0.len() implies reconciled(st, #[trigger] l0[k]) by {
            assert(l0[k] == ls[k]);
        }
        lemma_apply_on_reconciled(st, l0);
        assert(reconciled(st, ls[ls.len() - 1]));
        lemma_step_on_reconciled(st, ls.last());
        assert(relinked_events(l0) + seq![EventModel::Relinked(ls.last())] =~= relinked_events(ls));
    }
}

/// Applying one sensor list twice: the second pass changes nothing and
/// yields only the one relink notification per listed sensor.
pub proof fn lemma_sensor_list_idempotent(st: SensorsModel, ls: Seq<SensorModel<LinkedMetric>>)
    requires
        distinct_sensor_ids(ls),
    ensures
        apply_list(apply_list(st, ls).0, ls).0 == apply_list(st, ls).0,
        apply_list(apply_list(st, ls).0, ls).1 == relinked_events(ls),
{
    lemma_apply_reconciles(st, ls);
    lemma_apply_on_reconciled(apply_list(st, ls).0, ls);
}

} // verus!
