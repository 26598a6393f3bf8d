use vstd::prelude::*;

use crate::ids::{MetricId, SensorId};
use crate::protocol::{
    CreateMetricResponsePayload, ErrorResponse, MetricsArrayResponse, PushMetricValueResponse,
};
use crate::sensor::{LinkedMetric, Metric, Sensor, SensorModel};
use crate::state::{
    EventModel, SensorStateEvent, SensorsModel, SensorsState, StateError, ack_events, apply_list,
    create_step, created_events, delete_step, describe_step, events_view, livedata_events,
    metric_id_by_name_spec, metric_ids_of, index_of, sensor_id_by_name_spec,
};
use crate::topic::{Inbound, MqttScheme, Role};

verus! {

/// The decoded body of an inbound message.
#[derive(Debug, PartialEq)]
pub enum Payload {
    SensorList(Vec<Sensor<LinkedMetric>>),
    Sensor(Sensor<Metric>),
    Metric(Metric),
    CreatedMetrics(Vec<CreateMetricResponsePayload>),
    Values(MetricsArrayResponse<PushMetricValueResponse>),
    Remote(ErrorResponse),
    /// A plain-text acknowledgement.
    Text(String),
    Empty,
}

pub open spec fn linked_views(v: Seq<Sensor<LinkedMetric>>) -> Seq<SensorModel<LinkedMetric>> {
    Seq::new(v.len(), |i: int| v[i]@)
}

pub open spec fn ok_events(st: SensorsModel, e: Seq<EventModel>) -> Result<
    (SensorsModel, Seq<EventModel>),
    StateError,
> {
    Ok((st, e))
}

/// What an inbound message does to the mirror, and the events it yields.
pub open spec fn handle_spec(st: SensorsModel, inbound: Inbound, p: Payload) -> Result<
    (SensorsModel, Seq<EventModel>),
    StateError,
> {
    match inbound {
        Inbound::Livedata(sid) => match p {
            Payload::Values(v) => match v.timestamp {
                Some(ts) => ok_events(st, livedata_events(sid, v.metrics@, ts)),
                None => Err(StateError::Malformed),
            },
            _ => Err(StateError::MismatchedPayload),
        },
        Inbound::Reply { scheme, role } => if role == Role::Error {
            match p {
                Payload::Remote(e) => ok_events(
                    st,
                    seq![EventModel::Other(SensorStateEvent::Error { message: e.message, code: e.code })],
                ),
                _ => Err(StateError::MismatchedPayload),
            }
        } else {
            match scheme {
                MqttScheme::SensorList => match p {
                    Payload::SensorList(ls) => Ok(apply_list(st, linked_views(ls@))),
                    _ => Err(StateError::MismatchedPayload),
                },
                MqttScheme::SensorCreate => match p {
                    Payload::Sensor(s) => Ok(create_step(st, s@)),
                    _ => Err(StateError::MismatchedPayload),
                },
                MqttScheme::SensorUpdate(sid) => match p {
                    Payload::Text(t) => ok_events(
                        st,
                        ack_events(
                            t@,
                            "Sensor was changed."@,
                            EventModel::Other(SensorStateEvent::SensorUpdated { sensor_id: sid }),
                        ),
                    ),
                    _ => Err(StateError::MismatchedPayload),
                },
                MqttScheme::SensorDelete(sid) => match p {
                    Payload::Text(t) => Ok(
                        (
                            if t@ == "Sensor was deleted."@ {
                                delete_step(st, sid)
                            } else {
                                st
                            },
                            ack_events(
                                t@,
                                "Sensor was deleted."@,
                                EventModel::Other(SensorStateEvent::SensorDeleted { sensor_id: sid }),
                            ),
                        ),
                    ),
                    _ => Err(StateError::MismatchedPayload),
                },
                MqttScheme::MetricDescribe(sid, mid) => match p {
                    Payload::Metric(d) => describe_step(st, sid, mid, d),
                    _ => Err(StateError::MismatchedPayload),
                },
                MqttScheme::MetricCreate(sid) => match p {
                    Payload::CreatedMetrics(c) => ok_events(st, created_events(sid, c@)),
                    _ => Err(StateError::MismatchedPayload),
                },
                MqttScheme::MetricUpdate(sid) => match p {
                    Payload::Text(t) => ok_events(
                        st,
                        ack_events(
                            t@,
                            "All metrics were successfully modified."@,
                            EventModel::Other(SensorStateEvent::SensorMetricsUpdated { sensor_id: sid }),
                        ),
                    ),
                    _ => Err(StateError::MismatchedPayload),
                },
                MqttScheme::MetricDelete(sid) => match p {
                    Payload::Text(t) => ok_events(
                        st,
                        ack_events(
                            t@,
                            "All metrics were successfully deleted."@,
                            EventModel::Other(SensorStateEvent::SensorUpdated { sensor_id: sid }),
                        ),
                    ),
                    _ => Err(StateError::MismatchedPayload),
                },
                _ => ok_events(st, Seq::empty()),
            }
        },
        Inbound::Unknown => Err(StateError::UnknownTopic),
    }
}

fn mismatched() -> (r: Result<Vec<SensorStateEvent>, StateError>)
    ensures
        r == Err::<Vec<SensorStateEvent>, StateError>(StateError::MismatchedPayload),
{
    Err(StateError::MismatchedPayload)
}

impl SensorsState {
    /// Applies an inbound message, routed by what its topic reads as.
    pub fn handle_inbound(&mut self, inbound: Inbound, payload: &Payload) -> (r: Result<
        Vec<SensorStateEvent>,
        StateError,
    >)
        requires
            old(self).wf(),
        ensures
            final(self).wf(),
            match handle_spec(old(self)@, inbound, *payload) {
                Ok((st, evs)) => r matches Ok(v) && final(self)@ == st && events_view(v@) == evs,
                Err(e) => r == Err::<Vec<SensorStateEvent>, StateError>(e) && final(self)@ == old(
                    self,
                )@,
            },
    {
        match inbound {
            Inbound::Livedata(sid) => match payload {
                Payload::Values(v) => self.event_livedata(sid, v),
                _ => mismatched(),
            },
            Inbound::Reply { scheme, role } => {
                if role == Role::Error {
                    match payload {
                        Payload::Remote(e) => Ok(self.event_error(e)),
                        _ => mismatched(),
                    }
                } else {
                    match scheme {
                        MqttScheme::SensorList => match payload {
                            Payload::SensorList(ls) => Ok(self.event_sensor_list(ls)),
                            _ => mismatched(),
                        },
                        MqttScheme::SensorCreate => match payload {
                            Payload::Sensor(s) => Ok(self.event_sensor_create(s)),
                            _ => mismatched(),
                        },
                        MqttScheme::SensorUpdate(sid) => match payload {
                            Payload::Text(t) => Ok(self.event_sensor_update(sid, t)),
                            _ => mismatched(),
                        },
                        MqttScheme::SensorDelete(sid) => match payload {
                            Payload::Text(t) => Ok(self.event_sensor_delete(sid, t)),
                            _ => mismatched(),
                        },
                        MqttScheme::MetricDescribe(sid, mid) => match payload {
                            Payload::Metric(d) => self.event_metric_describe(sid, mid, d),
                            _ => mismatched(),
                        },
                        MqttScheme::MetricCreate(sid) => match payload {
                            Payload::CreatedMetrics(c) => Ok(self.event_metric_create(sid, c)),
                            _ => mismatched(),
                        },
                        MqttScheme::MetricUpdate(sid) => match payload {
                            Payload::Text(t) => Ok(self.event_metric_update(sid, t)),
                            _ => mismatched(),
                        },
                        MqttScheme::MetricDelete(sid) => match payload {
                            Payload::Text(t) => Ok(self.event_metric_delete(sid, t)),
                            _ => mismatched(),
                        },
                        _ => {
                            let v: Vec<SensorStateEvent> = Vec::new();
                            proof {
                                assert(events_view(v@) =~= Seq::<EventModel>::empty());
                            }
                            Ok(v)
                        },
                    }
                }
            },
            Inbound::Unknown => Err(StateError::UnknownTopic),
        }
    }
}

/// Asks for a copy of every sensor.
#[derive(Debug, PartialEq)]
pub struct GetStateSnapshot;

/// Asks for the metric ids of a sensor.
#[derive(Debug, PartialEq)]
pub struct GetMetricIds(pub SensorId);

/// Asks for the id of the first sensor with a name.
#[derive(Debug, PartialEq)]
pub struct GetSensorIdByName(pub String);

/// Asks for the id of the first metric of a sensor with a name.
#[derive(Debug, PartialEq)]
pub struct GetMetricIdByName(pub SensorId, pub String);

/// A point query on the mirror.
#[derive(Debug, PartialEq)]
pub enum SensorStateQuery {
    GetStateSnapshot(GetStateSnapshot),
    GetMetricIds(GetMetricIds),
    GetSensorIdByName(GetSensorIdByName),
    GetMetricIdByName(GetMetricIdByName),
}

#[derive(Debug, PartialEq)]
pub enum QueryAnswer {
    StateSnapshot(Vec<Sensor<Metric>>),
    MetricIds(Option<Vec<MetricId>>),
    SensorId(Option<SensorId>),
    MetricId(Option<MetricId>),
}

pub enum AnswerModel {
    StateSnapshot(SensorsModel),
    MetricIds(Option<Seq<MetricId>>),
    SensorId(Option<SensorId>),
    MetricId(Option<MetricId>),
}

impl View for QueryAnswer {
    type V = AnswerModel;

    open spec fn view(&self) -> AnswerModel {
        match self {
            QueryAnswer::StateSnapshot(v) => AnswerModel::StateSnapshot(
                Seq::new(v@.len(), |i: int| v@[i]@),
            ),
            QueryAnswer::MetricIds(o) => AnswerModel::MetricIds(
                match o {
                    Some(v) => Some(v@),
                    None => None,
                },
            ),
            QueryAnswer::SensorId(o) => AnswerModel::SensorId(*o),
            QueryAnswer::MetricId(o) => AnswerModel::MetricId(*o),
        }
    }
}

/// The answer to a query on state `st`.
pub open spec fn answer_spec(st: SensorsModel, q: SensorStateQuery) -> AnswerModel {
    match q {
        SensorStateQuery::GetStateSnapshot(_) => AnswerModel::StateSnapshot(st),
        SensorStateQuery::GetMetricIds(GetMetricIds(sid)) => AnswerModel::MetricIds(
            if index_of(st, sid) < 0 {
                None
            } else {
                Some(metric_ids_of(st[index_of(st, sid)].metrics))
            },
        ),
        SensorStateQuery::GetSensorIdByName(GetSensorIdByName(name)) => AnswerModel::SensorId(
            sensor_id_by_name_spec(st, name@),
        ),
        SensorStateQuery::GetMetricIdByName(GetMetricIdByName(sid, name)) => AnswerModel::MetricId(
            metric_id_by_name_spec(st, sid, name@),
        ),
    }
}

/// One item of the state inbox: an inbound message to apply, or a query.
#[derive(Debug, PartialEq)]
pub enum StateActorCommand {
    ProcessMqttEvent { inbound: Inbound, payload: Payload },
    StateQuery(SensorStateQuery),
}

#[derive(Debug, PartialEq)]
pub enum Outcome {
    Applied(Result<Vec<SensorStateEvent>, StateError>),
    Answered(QueryAnswer),
}

pub enum OutcomeModel {
    Applied(Result<Seq<EventModel>, StateError>),
    Answered(AnswerModel),
}

impl View for Outcome {
    type V = OutcomeModel;

    open spec fn view(&self) -> OutcomeModel {
        match self {
            Outcome::Applied(Ok(v)) => OutcomeModel::Applied(Ok(events_view(v@))),
            Outcome::Applied(Err(e)) => OutcomeModel::Applied(Err(*e)),
            Outcome::Answered(a) => OutcomeModel::Answered(a@),
        }
    }
}

/// Processing one inbox item on state `st`: the next state and the outcome.
pub open spec fn step_spec(st: SensorsModel, c: StateActorCommand) -> (SensorsModel, OutcomeModel) {
    match c {
        StateActorCommand::ProcessMqttEvent { inbound, payload } => match handle_spec(
            st,
            inbound,
            payload,
        ) {
            Ok((s2, e)) => (s2, OutcomeModel::Applied(Ok(e))),
            Err(x) => (st, OutcomeModel::Applied(Err(x))),
        },
        StateActorCommand::StateQuery(q) => (st, OutcomeModel::Answered(answer_spec(st, q))),
    }
}

/// Processing the inbox items in order.
pub open spec fn run_spec(st: SensorsModel, cmds: Seq<StateActorCommand>) -> (
    SensorsModel,
    Seq<OutcomeModel>,
)
    decreases cmds.len(),
{
    if cmds.len() == 0 {
        (st, Seq::empty())
    } else {
        let (s1, o1) = run_spec(st, cmds.drop_last());
        let (s2, o2) = step_spec(s1, cmds.last());
        (s2, o1.push(o2))
    }
}

/// Owner of the mirror: applies inbound messages and answers queries one at
/// a time, in the order they arrive.
pub struct SensorStateActor {
    state: SensorsState,
}

impl View for SensorStateActor {
    type V = SensorsModel;

    closed spec fn view(&self) -> SensorsModel {
        self.state@
    }
}

impl SensorStateActor {
    pub closed spec fn wf(&self) -> bool {
        self.state.wf()
    }

    pub fn new() -> (r: SensorStateActor)
        ensures
            r.wf(),
            r@ == Seq::<SensorModel<Metric>>::empty(),
    {
        SensorStateActor { state: SensorsState::new() }
    }

    fn answer(&self, q: &SensorStateQuery) -> (r: QueryAnswer)
        requires
            self.wf(),
        ensures
            r@ == answer_spec(self@, *q),
    {
        match q {
            SensorStateQuery::GetStateSnapshot(_) => QueryAnswer::StateSnapshot(self.state.snapshot()),
            SensorStateQuery::GetMetricIds(GetMetricIds(sid)) => QueryAnswer::MetricIds(
                self.state.metric_ids(*sid),
            ),
            SensorStateQuery::GetSensorIdByName(GetSensorIdByName(name)) => QueryAnswer::SensorId(
                self.state.sensor_id_by_name(name),
            ),
            SensorStateQuery::GetMetricIdByName(GetMetricIdByName(sid, name)) => QueryAnswer::MetricId(
                self.state.metric_id_by_name(*sid, name),
            ),
        }
    }

    /// The requests to issue in reaction to `event`, judged on the mirror now.
    pub fn follow_up(&self, event: &SensorStateEvent) -> (r: Vec<MqttScheme>)
        ensures
            r@ == crate::state::follow_up_spec(self@, event@),
    {
        self.state.follow_up(event)
    }

    /// Processes one inbox item completely.
    pub fn handle_command(&mut self, command: &StateActorCommand) -> (r: Outcome)
        requires
            old(self).wf(),
        ensures
            final(self).wf(),
            (final(self)@, r@) == step_spec(old(self)@, *command),
    {
        match command {
            StateActorCommand::ProcessMqttEvent { inbound, payload } => {
                Outcome::Applied(self.state.handle_inbound(*inbound, payload))
            },
            StateActorCommand::StateQuery(q) => Outcome::Answered(self.answer(q)),
        }
    }

    /// Processes the inbox items in order, each one fully before the next.
    pub fn process_inbox(&mut self, commands: &Vec<StateActorCommand>) -> (r: Vec<Outcome>)
        requires
            old(self).wf(),
        ensures
            final(self).wf(),
            final(self)@ == run_spec(old(self)@, commands@).0,
            Seq::new(r@.len(), |i: int| r@[i]@) == run_spec(old(self)@, commands@).1,
    {
        let ghost st = self@;
        let mut r: Vec<Outcome> = Vec::new();
        let mut i: usize = 0;
        proof {
            assert(commands@.take(0) =~= Seq::<StateActorCommand>::empty());
            assert(Seq::new(r@.len(), |i: int| r@[i]@) =~= Seq::<OutcomeModel>::empty());
        }
        while i < commands.len()
            invariant
                0 <= i <= commands@.len(),
                self.wf(),
                self@ == run_spec(st, commands@.take(i as int)).0,
                Seq::new(r@.len(), |k: int| r@[k]@) == run_spec(st, commands@.take(i as int)).1,
            decreases commands@.len() - i,
        {
            proof {
                assert(commands@.take(i + 1).drop_last() =~= commands@.take(i as int));
            }
            let ghost r0 = Seq::new(r@.len(), |k: int| r@[k]@);
            let o = self.handle_command(&commands[i]);
            r.push(o);
            i += 1;
            proof {
                assert(Seq::new(r@.len(), |k: int| r@[k]@) =~= r0.push(r@.last()@));
            }
        }
        proof {
            assert(commands@.take(i as int) =~= commands@);
        }
        r
    }
}

/// Inbox order: the outcome of each item is computed on the state left by
/// every item before it, and by nothing after it.
pub proof fn lemma_inbox_order(st: SensorsModel, cmds: Seq<StateActorCommand>, i: int)
    requires
        0 <= i < cmds.len(),
    ensures
        run_spec(st, cmds).1.len() == cmds.len(),
        run_spec(st, cmds).1[i] == step_spec(run_spec(st, cmds.take(i)).0, cmds[i]).1,
    decreases cmds.len(),
{
    lemma_run_len(st, cmds);
    if i == cmds.len() - 1 {
        assert(cmds.drop_last() =~= cmds.take(i));
    } else {
        lemma_inbox_order(st, cmds.drop_last(), i);
        assert(cmds.drop_last().take(i) =~= cmds.take(i));
    }
}

proof fn lemma_run_len(st: SensorsModel, cmds: Seq<StateActorCommand>)
    ensures
        run_spec(st, cmds).1.len() == cmds.len(),
    decreases cmds.len(),
{
    if cmds.len() > 0 {
        lemma_run_len(st, cmds.drop_last());
    }
}

/// A query issued right after a message sees that message applied.
pub proof fn lemma_query_after_mutation(
    st: SensorsModel,
    cmds: Seq<StateActorCommand>,
    i: int,
    inbound: Inbound,
    payload: Payload,
    q: SensorStateQuery,
)
    requires
        0 <= i < cmds.len() - 1,
        cmds[i] == (StateActorCommand::ProcessMqttEvent { inbound, payload }),
        cmds[i + 1] == StateActorCommand::StateQuery(q),
    ensures
        run_spec(st, cmds).1[i + 1] == OutcomeModel::Answered(
            answer_spec(step_spec(run_spec(st, cmds.take(i)).0, cmds[i]).0, q),
        ),
{
    lemma_inbox_order(st, cmds, i + 1);
    assert(cmds.take(i + 1).drop_last() =~= cmds.take(i));
    assert(cmds.take(i + 1).last() == cmds[i]);
}

} // verus!
