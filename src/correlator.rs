use vstd::prelude::*;

use crate::ids::ConnectorId;
use crate::topic::{MqttScheme, Role, connector_prefix, full_topic, topic_text};

verus! {

/// A call waiting for its turn: `ticket` names the caller awaiting the reply.
#[derive(Debug, PartialEq)]
pub struct PendingCall {
    pub ticket: u64,
    pub scheme: MqttScheme,
    pub payload: String,
}

/// Why a call failed.
#[derive(Debug, PartialEq)]
pub enum CallError {
    /// The reply came on the error topic, with this body.
    Remote(String),
    /// The transport failed while the call was outstanding.
    Transport,
}

/// What the transport must do next, in order.
#[derive(Debug, PartialEq)]
pub enum CorrelatorAction {
    Subscribe { success: String, error: String },
    Publish { topic: String, payload: String },
    Unsubscribe { success: String, error: String },
    /// Hands the outcome of call `ticket` to its caller.
    Resolve { ticket: u64, result: Result<String, CallError> },
}

pub enum ErrorModel {
    Remote(Seq<char>),
    Transport,
}

pub enum ActionModel {
    Subscribe { success: Seq<char>, error: Seq<char> },
    Publish { topic: Seq<char>, payload: Seq<char> },
    Unsubscribe { success: Seq<char>, error: Seq<char> },
    Resolve { ticket: u64, result: Result<Seq<char>, ErrorModel> },
}

impl View for CorrelatorAction {
    type V = ActionModel;

    open spec fn view(&self) -> ActionModel {
        match self {
            CorrelatorAction::Subscribe { success, error } => ActionModel::Subscribe {
                success: success@,
                error: error@,
            },
            CorrelatorAction::Publish { topic, payload } => ActionModel::Publish {
                topic: topic@,
                payload: payload@,
            },
            CorrelatorAction::Unsubscribe { success, error } => ActionModel::Unsubscribe {
                success: success@,
                error: error@,
            },
            CorrelatorAction::Resolve { ticket, result } => ActionModel::Resolve {
                ticket: *ticket,
                result: result_model(*result),
            },
        }
    }
}

pub open spec fn result_model(r: Result<String, CallError>) -> Result<Seq<char>, ErrorModel> {
    match r {
        Ok(b) => Ok(b@),
        Err(CallError::Remote(b)) => Err(ErrorModel::Remote(b@)),
        Err(CallError::Transport) => Err(ErrorModel::Transport),
    }
}

pub open spec fn actions_view(v: Seq<CorrelatorAction>) -> Seq<ActionModel> {
    Seq::new(v.len(), |i: int| v[i]@)
}

/// The call on the wire: its ticket and its two reply topics.
pub struct InFlight {
    ticket: u64,
    success: String,
    error: String,
}

pub struct InFlightModel {
    pub ticket: u64,
    pub success: Seq<char>,
    pub error: Seq<char>,
}

pub struct CallModel {
    pub ticket: u64,
    pub scheme: MqttScheme,
    pub payload: Seq<char>,
}

pub struct CorrelatorModel {
    pub connector: ConnectorId,
    pub in_flight: Option<InFlightModel>,
    pub queue: Seq<CallModel>,
}

pub open spec fn call_model(c: PendingCall) -> CallModel {
    CallModel { ticket: c.ticket, scheme: c.scheme, payload: c.payload@ }
}

pub open spec fn full(c: ConnectorId, s: MqttScheme, role: Role) -> Seq<char> {
    connector_prefix(c) + topic_text(s, role)
}

/// Putting a call on the wire: subscribe to both reply topics, then publish.
pub open spec fn start(c: ConnectorId, call: CallModel) -> (InFlightModel, Seq<ActionModel>) {
    let success = full(c, call.scheme, Role::Success);
    let error = full(c, call.scheme, Role::Error);
    (
        InFlightModel { ticket: call.ticket, success, error },
        seq![
            ActionModel::Subscribe { success, error },
            ActionModel::Publish { topic: full(c, call.scheme, Role::Action), payload: call.payload },
        ],
    )
}

pub open spec fn submit_spec(m: CorrelatorModel, call: CallModel) -> (CorrelatorModel, Seq<ActionModel>) {
    if m.in_flight is None {
        let (f, acts) = start(m.connector, call);
        (CorrelatorModel { in_flight: Some(f), ..m }, acts)
    } else {
        (CorrelatorModel { queue: m.queue.push(call), ..m }, Seq::empty())
    }
}

/// Ending the call on the wire: unsubscribe from both topics, hand over the
/// outcome, and start the next call waiting, if any.
pub open spec fn finish_spec(m: CorrelatorModel, f: InFlightModel, result: Result<Seq<char>, ErrorModel>) -> (
    CorrelatorModel,
    Seq<ActionModel>,
) {
    let done = seq![
        ActionModel::Unsubscribe { success: f.success, error: f.error },
        ActionModel::Resolve { ticket: f.ticket, result },
    ];
    if m.queue.len() == 0 {
        (CorrelatorModel { in_flight: None, ..m }, done)
    } else {
        let (g, acts) = start(m.connector, m.queue[0]);
        (CorrelatorModel { in_flight: Some(g), queue: m.queue.drop_first(), ..m }, done + acts)
    }
}

pub open spec fn on_message_spec(m: CorrelatorModel, topic: Seq<char>, body: Seq<char>) -> (
    CorrelatorModel,
    Seq<ActionModel>,
) {
    match m.in_flight {
        Some(f) => if topic == f.success {
            finish_spec(m, f, Ok(body))
        } else if topic == f.error {
            finish_spec(m, f, Err(ErrorModel::Remote(body)))
        } else {
            (m, Seq::empty())
        },
        None => (m, Seq::empty()),
    }
}

pub open spec fn on_failure_spec(m: CorrelatorModel) -> (CorrelatorModel, Seq<ActionModel>) {
    match m.in_flight {
        Some(f) => finish_spec(m, f, Err(ErrorModel::Transport)),
        None => (m, Seq::empty()),
    }
}

/// Emulates request/response over publish/subscribe, one call at a time:
/// a call goes on the wire only once the one before it is fully done.
pub struct Correlator {
    connector: ConnectorId,
    in_flight: Option<InFlight>,
    queue: Vec<PendingCall>,
}

impl View for Correlator {
    type V = CorrelatorModel;

    closed spec fn view(&self) -> CorrelatorModel {
        CorrelatorModel {
            connector: self.connector,
            in_flight: match self.in_flight {
                Some(f) => Some(InFlightModel { ticket: f.ticket, success: f.success@, error: f.error@ }),
                None => None,
            },
            queue: Seq::new(self.queue@.len(), |i: int| call_model(self.queue@[i])),
        }
    }
}

impl Correlator {
    /// No call waits while the wire is free.
    pub open spec fn wf(&self) -> bool {
        self@.in_flight is None ==> self@.queue.len() == 0
    }

    pub fn new(connector: ConnectorId) -> (r: Correlator)
        ensures
            r.wf(),
            r@.connector == connector,
            r@.in_flight is None,
    {
        let r = Correlator { connector, in_flight: None, queue: Vec::new() };
        proof {
            assert(r@.queue =~= Seq::<CallModel>::empty());
        }
        r
    }

    /// Whether a call is on the wire.
    pub fn is_busy(&self) -> (r: bool)
        ensures
            r == self@.in_flight is Some,
    {
        self.in_flight.is_some()
    }

    fn start(&mut self, call: &PendingCall, actions: &mut Vec<CorrelatorAction>)
        ensures
            final(self)@ == (CorrelatorModel { in_flight: Some(start(old(self)@.connector, call_model(*call)).0), ..old(self)@ }),
            actions_view(final(actions)@) == actions_view(old(actions)@) + start(old(self)@.connector, call_model(*call)).1,
    {
        let (action, success, error) = call.scheme.get_topics();
        let success = full_topic(self.connector, success.as_str());
        let error = full_topic(self.connector, error.as_str());
        let topic = full_topic(self.connector, action.as_str());
        let ghost a0 = actions_view(actions@);
        actions.push(CorrelatorAction::Subscribe { success: success.clone(), error: error.clone() });
        actions.push(CorrelatorAction::Publish { topic, payload: call.payload.clone() });
        self.in_flight = Some(InFlight { ticket: call.ticket, success, error });
        proof {
            assert(actions_view(actions@) =~= a0 + start(self@.connector, call_model(*call)).1);
            assert(self@.queue =~= old(self)@.queue);
        }
    }

    /// A new call: on the wire at once if it is free, else queued.
    pub fn submit(&mut self, call: PendingCall) -> (r: Vec<CorrelatorAction>)
        requires
            old(self).wf(),
        ensures
            final(self).wf(),
            (final(self)@, actions_view(r@)) == submit_spec(old(self)@, call_model(call)),
    {
        let mut actions: Vec<CorrelatorAction> = Vec::new();
        if self.in_flight.is_none() {
            proof {
                assert(actions_view(actions@) =~= Seq::<ActionModel>::empty());
            }
            self.start(&call, &mut actions);
            proof {
                assert(actions_view(actions@) =~= submit_spec(old(self)@, call_model(call)).1);
            }
        } else {
            self.queue.push(call);
            proof {
                assert(self@.queue =~= old(self)@.queue.push(call_model(call)));
                assert(actions_view(actions@) =~= Seq::<ActionModel>::empty());
            }
        }
        actions
    }

    fn finish(&mut self, result: Result<String, CallError>) -> (r: Vec<CorrelatorAction>)
        requires
            old(self)@.in_flight is Some,
        ensures
            final(self).wf(),
            (final(self)@, actions_view(r@)) == finish_spec(
                old(self)@,
                old(self)@.in_flight->Some_0,
                result_model(result),
            ),
    {
        let ghost m = self@;
        let ghost rm = result_model(result);
        let f = self.in_flight.take().unwrap();
        let mut actions: Vec<CorrelatorAction> = Vec::new();
        actions.push(CorrelatorAction::Unsubscribe { success: f.success, error: f.error });
        actions.push(CorrelatorAction::Resolve { ticket: f.ticket, result });
        let ghost done = actions_view(actions@);
        proof {
            assert(done =~= seq![
                ActionModel::Unsubscribe { success: m.in_flight->Some_0.success, error: m.in_flight->Some_0.error },
                ActionModel::Resolve { ticket: m.in_flight->Some_0.ticket, result: rm },
            ]);
        }
        if self.queue.len() > 0 {
            let next = self.queue.remove(0);
            proof {
                assert(self@.queue =~= m.queue.drop_first());
                assert(call_model(next) == m.queue[0]);
            }
            self.start(&next, &mut actions);
        }
        proof {
            let fin = finish_spec(m, m.in_flight->Some_0, rm);
            assert(self@ == fin.0);
            assert(actions_view(actions@) =~= fin.1);
        }
        actions
    }

    /// A message on the request session: the reply of the call on the wire
    /// when it comes on one of its two topics; anything else is not ours.
    pub fn on_message(&mut self, topic: &String, body: &String) -> (r: Vec<CorrelatorAction>)
        requires
            old(self).wf(),
        ensures
            final(self).wf(),
            (final(self)@, actions_view(r@)) == on_message_spec(old(self)@, topic@, body@),
    {
        let is_success: bool;
        let is_error: bool;
        match &self.in_flight {
            None => {
                let r: Vec<CorrelatorAction> = Vec::new();
                proof {
                    assert(actions_view(r@) =~= Seq::<ActionModel>::empty());
                }
                return r;
            },
            Some(f) => {
                is_success = *topic == f.success;
                is_error = *topic == f.error;
            },
        }
        if is_success {
            self.finish(Ok(body.clone()))
        } else if is_error {
            self.finish(Err(CallError::Remote(body.clone())))
        } else {
            let r: Vec<CorrelatorAction> = Vec::new();
            proof {
                assert(actions_view(r@) =~= Seq::<ActionModel>::empty());
            }
            r
        }
    }

    /// The transport failed: the call on the wire, if any, fails.
    pub fn on_transport_failure(&mut self) -> (r: Vec<CorrelatorAction>)
        requires
            old(self).wf(),
        ensures
            final(self).wf(),
            (final(self)@, actions_view(r@)) == on_failure_spec(old(self)@),
    {
        if self.in_flight.is_none() {
            let r: Vec<CorrelatorAction> = Vec::new();
            proof {
                assert(actions_view(r@) =~= Seq::<ActionModel>::empty());
            }
            return r;
        }
        self.finish(Err(CallError::Transport))
    }
}


/// Reads an action stream from a wire that is `busy` or free: `None` when a
/// call is published while another is outstanding, or a call is resolved
/// while none is; else whether a call is outstanding at the end.
pub open spec fn flight(acts: Seq<ActionModel>, busy: bool) -> Option<bool>
    decreases acts.len(),
{
    if acts.len() == 0 {
        Some(busy)
    } else {
        let rest = acts.subrange(1, acts.len() as int);
        match acts[0] {
            ActionModel::Publish { .. } => if busy {
                None
            } else {
                flight(rest, true)
            },
            ActionModel::Resolve { .. } => if busy {
                flight(rest, false)
            } else {
                None
            },
            _ => flight(rest, busy),
        }
    }
}

proof fn lemma_flight_append(a: Seq<ActionModel>, b: Seq<ActionModel>, busy: bool)
    ensures
        flight(a + b, busy) == match flight(a, busy) {
            Some(x) => flight(b, x),
            None => None,
        },
    decreases a.len(),
{
    if a.len() > 0 {
        let rest = a.subrange(1, a.len() as int);
        assert((a + b).subrange(1, (a + b).len() as int) =~= rest + b);
        assert((a + b)[0] == a[0]);
        match a[0] {
            ActionModel::Publish { .. } => {
                if !busy {
                    lemma_flight_append(rest, b, true);
                }
            },
            ActionModel::Resolve { .. } => {
                if busy {
                    lemma_flight_append(rest, b, false);
                }
            },
            _ => {
                lemma_flight_append(rest, b, busy);
            },
        }
    } else {
        assert(a + b =~= b);
    }
}

proof fn lemma_flight_start(c: ConnectorId, call: CallModel)
    ensures
        flight(start(c, call).1, false) == Some(true),
{
    let acts = start(c, call).1;
    reveal_with_fuel(flight, 3);
    assert(acts.subrange(1, 2) =~= seq![acts[1]]);
    assert(acts.subrange(1, 2).subrange(1, 1) =~= Seq::<ActionModel>::empty());
    assert(seq![acts[1]].subrange(1, 1) =~= Seq::<ActionModel>::empty());
}

proof fn lemma_flight_finish(m: CorrelatorModel, f: InFlightModel, result: Result<Seq<char>, ErrorModel>)
    ensures
        flight(finish_spec(m, f, result).1, true) == Some(finish_spec(m, f, result).0.in_flight is Some),
{
    let done = seq![
        ActionModel::Unsubscribe { success: f.success, error: f.error },
        ActionModel::Resolve { ticket: f.ticket, result },
    ];
    reveal_with_fuel(flight, 3);
    assert(done.subrange(1, 2) =~= seq![done[1]]);
    assert(seq![done[1]].subrange(1, 1) =~= Seq::<ActionModel>::empty());
    assert(flight(seq![done[1]], true) == Some(false));
    assert(flight(done, true) == Some(false));
    if m.queue.len() > 0 {
        lemma_flight_append(done, start(m.connector, m.queue[0]).1, true);
        lemma_flight_start(m.connector, m.queue[0]);
    }
}

/// Something that happens to the correlator.
pub enum CorrelatorInput {
    Submit(CallModel),
    Message(Seq<char>, Seq<char>),
    Failure,
}

pub open spec fn step(m: CorrelatorModel, e: CorrelatorInput) -> (CorrelatorModel, Seq<ActionModel>) {
    match e {
        CorrelatorInput::Submit(call) => submit_spec(m, call),
        CorrelatorInput::Message(topic, body) => on_message_spec(m, topic, body),
        CorrelatorInput::Failure => on_failure_spec(m),
    }
}

/// The correlator after `inputs`, and every action it asked for, in order.
pub open spec fn run(m: CorrelatorModel, inputs: Seq<CorrelatorInput>) -> (CorrelatorModel, Seq<ActionModel>)
    decreases inputs.len(),
{
    if inputs.len() == 0 {
        (m, Seq::empty())
    } else {
        let (m1, a1) = run(m, inputs.drop_last());
        let (m2, a2) = step(m1, inputs.last());
        (m2, a1 + a2)
    }
}

proof fn lemma_flight_step(m: CorrelatorModel, e: CorrelatorInput)
    ensures
        flight(step(m, e).1, m.in_flight is Some) == Some(step(m, e).0.in_flight is Some),
{
    match e {
        CorrelatorInput::Submit(call) => {
            if m.in_flight is None {
                lemma_flight_start(m.connector, call);
            }
        },
        CorrelatorInput::Message(topic, body) => {
            if let Some(f) = m.in_flight {
                if topic == f.success {
                    lemma_flight_finish(m, f, Ok(body));
                } else if topic == f.error {
                    lemma_flight_finish(m, f, Err(ErrorModel::Remote(body)));
                }
            }
        },
        CorrelatorInput::Failure => {
            if let Some(f) = m.in_flight {
                lemma_flight_finish(m, f, Err(ErrorModel::Transport));
            }
        },
    }
}

/// Single flight: whatever happens, the actions never publish a call while
/// another is outstanding, never resolve one that is not, and a call is
/// outstanding at the end exactly when the correlator says it is busy.
pub proof fn lemma_single_flight(m: CorrelatorModel, inputs: Seq<CorrelatorInput>)
    ensures
        flight(run(m, inputs).1, m.in_flight is Some) == Some(run(m, inputs).0.in_flight is Some),
    decreases inputs.len(),
{
    if inputs.len() > 0 {
        lemma_single_flight(m, inputs.drop_last());
        let (m1, a1) = run(m, inputs.drop_last());
        lemma_flight_step(m1, inputs.last());
        lemma_flight_append(a1, step(m1, inputs.last()).1, m.in_flight is Some);
    }
}

} // verus!
