//! The connection: one registry and one correlator, driven frame by frame
//! by the dispatch step.
use vstd::prelude::*;
use crate::correlator::{Completion, Correlator, Outcome, Request};
use crate::codec::{string_views, wire_from_json, wire_to_json};
use crate::error::ConnectionError;
use crate::json::{field, from_json, get, get_text, member_models, text_field, to_json, Json, JsonM, Member};
use crate::registry::{kind_of, ObjectKind, Registry};
use crate::wire::{entry_models, Special, Wire, WireEntry, WireValue};

verus! {

/// Reserved method name of a creation notification.
pub const CREATE_METHOD: &'static str = "__create__";
/// Reserved method name of a disposal notification.
pub const DISPOSE_METHOD: &'static str = "__dispose__";
/// Guid of the singleton that the session waits for before any call.
pub const INITIAL_GUID: &'static str = "Playwright";

/// What an unsolicited frame's method name announces.
#[derive(Clone, Copy, Debug, PartialEq, Eq, Structural)]
pub enum FrameMethod {
    Create,
    Dispose,
    /// Any other name: an application event for the target's subscribers.
    Event,
}

pub open spec fn method_kind(method: Seq<char>) -> FrameMethod {
    if method == CREATE_METHOD@ {
        FrameMethod::Create
    } else if method == DISPOSE_METHOD@ {
        FrameMethod::Dispose
    } else {
        FrameMethod::Event
    }
}

/// Classifies an unsolicited frame by its method name.
pub fn classify(method: &str) -> (r: FrameMethod)
    ensures
        r == method_kind(method@),
{
    let m = method.to_owned();
    if m == CREATE_METHOD.to_owned() {
        FrameMethod::Create
    } else if m == DISPOSE_METHOD.to_owned() {
        FrameMethod::Dispose
    } else {
        FrameMethod::Event
    }
}

/// An inbound frame, once its JSON has been read.
#[derive(Debug)]
pub enum Inbound {
    /// `{id, result | error}`
    Result { id: u64, outcome: Outcome },
    /// A creation notification from `parent` for a new object.
    Create { parent: String, typ: String, guid: String, initializer: Json },
    Dispose { guid: String },
    /// An application event `method` for the object `guid`.
    Event { guid: String, method: String },
}

/// What the dispatch step did with a frame.
#[derive(Debug)]
pub enum Dispatched {
    /// A pending call was resolved; hand this to its caller.
    Completed(Completion),
    /// A result for an id with nothing pending (already resolved, or never
    /// sent): ignored.
    Unmatched(u64),
    Created,
    /// A creation that could not be carried out; the frame is dropped.
    Dropped(ConnectionError),
    Disposed,
    /// The subscribers to notify, in order (none for an unknown guid).
    Delivered(Vec<u64>),
}

#[derive(Clone, Copy, Debug, PartialEq, Eq, Structural)]
pub enum ConnState {
    Connected,
    Terminated,
}

/// The connection's state: the object registry and the pending calls.
#[derive(Debug)]
pub struct Connection {
    pub registry: Registry,
    pub correlator: Correlator,
    pub state: ConnState,
}

impl Connection {
    pub open spec fn wf(&self) -> bool {
        self.registry.wf() && self.correlator.wf()
    }

    /// A connected session whose registry holds the root object alone.
    pub fn new() -> (r: Connection)
        ensures
            r.wf(),
            r.state == ConnState::Connected,
            r.registry.live() == set![crate::registry::ROOT_GUID@],
            r.correlator.pending() == Set::<u64>::empty(),
            r.correlator.next_id() == 1,
    {
        Connection { registry: Registry::new(), correlator: Correlator::new(), state: ConnState::Connected }
    }

    /// Issues a call on the object `guid`; fails with `ReceiverClosed` once
    /// the connection is terminated.
    pub fn call(&mut self, guid: String, method: String, params: Vec<WireEntry>) -> (r: Result<Request, ConnectionError>)
        requires
            old(self).wf(),
        ensures
            final(self).wf(),
            final(self).state == old(self).state,
            final(self).registry == old(self).registry,
            old(self).state == ConnState::Terminated ==> r == Err::<Request, ConnectionError>(
                ConnectionError::ReceiverClosed,
            ) && *final(self) == *old(self),
            old(self).state == ConnState::Connected && old(self).correlator.next_id() == u64::MAX ==> r
                == Err::<Request, ConnectionError>(ConnectionError::IdsExhausted) && *final(self) == *old(self),
            old(self).state == ConnState::Connected && old(self).correlator.next_id() < u64::MAX ==> ({
                let q = r->Ok_0;
                &&& r is Ok
                &&& q.id == old(self).correlator.next_id()
                &&& q.guid == guid && q.method == method && q.params == params
                &&& final(self).correlator.pending() == old(self).correlator.pending().insert(q.id)
                &&& final(self).correlator.next_id() == old(self).correlator.next_id() + 1
            }),
    {
        if self.state == ConnState::Terminated {
            return Err(ConnectionError::ReceiverClosed);
        }
        self.correlator.send(guid, method, params)
    }

    /// Routes one inbound frame: results to the correlator, creation and
    /// disposal to the registry, events to the target's subscribers. No
    /// frame is fatal: a failed creation is dropped, an unmatched result or
    /// an event for an unknown guid is ignored.
    pub fn dispatch(&mut self, msg: Inbound) -> (r: Dispatched)
        requires
            old(self).wf(),
        ensures
            final(self).wf(),
            final(self).state == old(self).state,
            match msg {
                Inbound::Result { id, outcome } => {
                    &&& final(self).registry == old(self).registry
                    &&& (final(self).correlator.pending(), r is Completed) == crate::correlator::resolve_step(
                        old(self).correlator.pending(),
                        id,
                    )
                    &&& final(self).correlator.next_id() == old(self).correlator.next_id()
                    &&& r is Completed ==> r->Completed_0.id == id && r->Completed_0.outcome == outcome
                    &&& !(r is Completed) ==> r == Dispatched::Unmatched(id)
                },
                Inbound::Create { parent, typ, guid, initializer } => {
                    &&& final(self).correlator == old(self).correlator
                    &&& old(self).registry.live().contains(parent@) ==> r is Created && final(self).registry.live()
                        == old(self).registry.live().insert(guid@) && final(self).registry.object(guid@).kind
                        == kind_of(typ@) && final(self).registry.object(guid@).typ@ == typ@
                        && final(self).registry.object(guid@).initializer == initializer
                        && final(self).registry.object(guid@).parent is Some
                        && final(self).registry.object(guid@).parent->0@ == parent@
                    &&& !old(self).registry.live().contains(parent@) ==> r == Dispatched::Dropped(
                        ConnectionError::ParentNotFound,
                    ) && final(self).registry == old(self).registry
                },
                Inbound::Dispose { guid } => {
                    &&& final(self).correlator == old(self).correlator
                    &&& r is Disposed
                    &&& final(self).registry.live() == old(self).registry.live().remove(guid@)
                },
                Inbound::Event { guid, method } => {
                    &&& final(self).correlator == old(self).correlator
                    &&& final(self).registry == old(self).registry
                    &&& r is Delivered
                    &&& !old(self).registry.live().contains(guid@) ==> r->Delivered_0@.len() == 0
                    &&& old(self).registry.live().contains(guid@) ==> r->Delivered_0@
                        == crate::registry::subscribers_for(old(self).registry.object(guid@).subscribers@, method@)
                },
            },
    {
        match msg {
            Inbound::Result { id, outcome } => match self.correlator.resolve(id, outcome) {
                Some(c) => Dispatched::Completed(c),
                None => Dispatched::Unmatched(id),
            },
            Inbound::Create { parent, typ, guid, initializer } => {
                match self.registry.create(parent.as_str(), typ, guid, initializer) {
                    Ok(()) => Dispatched::Created,
                    Err(e) => Dispatched::Dropped(e),
                }
            },
            Inbound::Dispose { guid } => {
                self.registry.dispose(guid.as_str());
                Dispatched::Disposed
            },
            Inbound::Event { guid, method } => Dispatched::Delivered(
                self.registry.emit(guid.as_str(), method.as_str()),
            ),
        }
    }

    /// The transport closed: the connection is terminated and every pending
    /// call is resolved with `Disconnected`, so none waits forever.
    pub fn terminate(&mut self) -> (r: Vec<Completion>)
        requires
            old(self).wf(),
        ensures
            final(self).wf(),
            final(self).state == ConnState::Terminated,
            final(self).registry == old(self).registry,
            final(self).correlator.pending() == Set::<u64>::empty(),
            forall|i: int| 0 <= i < r@.len() ==> (#[trigger] r@[i]).outcome is Disconnected,
            forall|i: int, j: int| 0 <= i < j < r@.len() ==> r@[i].id != r@[j].id,
            forall|x: u64|
                old(self).correlator.pending().contains(x) <==> exists|i: int|
                    0 <= i < r@.len() && #[trigger] r@[i].id == x,
    {
        self.state = ConnState::Terminated;
        self.correlator.disconnect()
    }

    /// One attempt of the bootstrap wait: `Ok(true)` once the initial
    /// singleton is live, `Ok(false)` when one more frame must be processed
    /// first, `ReceiverClosed` when no frame can come any more, and
    /// `ObjectNotFound` when its guid holds an object of another kind.
    pub fn initial_object_ready(&self) -> (r: Result<bool, ConnectionError>)
        requires
            self.wf(),
        ensures
            self.registry.live().contains(INITIAL_GUID@) ==> if self.registry.object(INITIAL_GUID@).kind
                == ObjectKind::Playwright {
                r == Ok::<bool, ConnectionError>(true)
            } else {
                r == Err::<bool, ConnectionError>(ConnectionError::ObjectNotFound)
            },
            !self.registry.live().contains(INITIAL_GUID@) ==> if self.state == ConnState::Terminated {
                r == Err::<bool, ConnectionError>(ConnectionError::ReceiverClosed)
            } else {
                r == Ok::<bool, ConnectionError>(false)
            },
    {
        match self.registry.lookup(INITIAL_GUID) {
            Ok(o) => if o.kind == ObjectKind::Playwright {
                Ok(true)
            } else {
                Err(ConnectionError::ObjectNotFound)
            },
            Err(_) => if self.state == ConnState::Terminated {
                Err(ConnectionError::ReceiverClosed)
            } else {
                Ok(false)
            },
        }
    }
}

/// Guids of a list of `{"guid": ...}` objects; nothing if one lacks it.
pub open spec fn guids_of(js: Seq<JsonM>) -> Option<Seq<Seq<char>>>
    decreases js.len(),
{
    if js.len() == 0 {
        Some(Seq::empty())
    } else {
        match guids_of(js.drop_last()) {
            None => None,
            Some(gs) => match text_field(js.last(), "guid"@) {
                Some(g) => Some(gs.push(g)),
                None => None,
            },
        }
    }
}

/// The member `key`, or `null` when it is absent.
pub open spec fn field_or_null(j: JsonM, key: Seq<char>) -> JsonM {
    match field(j, key) {
        Some(v) => v,
        None => JsonM::Null,
    }
}

/// The member `key` when it is a string, else the empty string.
pub open spec fn text_or_empty(j: JsonM, key: Seq<char>) -> Seq<char> {
    match text_field(j, key) {
        Some(t) => t,
        None => Seq::empty(),
    }
}

/// The value of a result: `undefined` when absent.
pub open spec fn result_value(res: JsonM) -> Option<Wire> {
    match field(res, "value"@) {
        None => Some(Wire::Special(Special::Undefined)),
        Some(v) => from_json(v),
    }
}

/// The handle list of a result: empty when absent.
pub open spec fn result_handles(res: JsonM) -> Option<Seq<Seq<char>>> {
    match field(res, "handles"@) {
        None => Some(Seq::empty()),
        Some(JsonM::Array(js)) => guids_of(js),
        Some(_) => None,
    }
}

/// The id of a result frame.
pub open spec fn frame_id(m: JsonM) -> Option<u64> {
    match field(m, "id"@) {
        Some(JsonM::UInt(id)) => Some(id),
        _ => None,
    }
}

/// Reads a list of `{"guid": ...}` objects.
#[verifier::loop_isolation(false)]
pub fn read_handles(h: Option<&Json>) -> (r: Result<Vec<String>, ConnectionError>)
    ensures
        match h {
            None => r is Ok && r->Ok_0@.len() == 0,
            Some(j) => match j.model() {
                JsonM::Array(js) => match guids_of(js) {
                    Some(gs) => r is Ok && string_views(r->Ok_0@) == gs,
                    None => r == Err::<Vec<String>, ConnectionError>(ConnectionError::InvalidParams),
                },
                _ => r == Err::<Vec<String>, ConnectionError>(ConnectionError::InvalidParams),
            },
        },
{
    let mut out: Vec<String> = Vec::new();
    let js = match h {
        None => return Ok(out),
        Some(Json::Array(js)) => js,
        Some(_) => return Err(ConnectionError::InvalidParams),
    };
    let ghost jm = crate::json::json_models(js@);
    let mut i: usize = 0;
    proof {
        assert(jm.take(0) =~= Seq::<JsonM>::empty());
        assert(string_views(out@) =~= Seq::<Seq<char>>::empty());
    }
    while i < js.len()
        invariant
            i <= js@.len(),
            jm == crate::json::json_models(js@),
            guids_of(jm.take(i as int)) == Some(string_views(out@)),
        decreases js@.len() - i,
    {
        proof {
            assert(jm.take(i + 1).drop_last() =~= jm.take(i as int));
            assert(jm.take(i + 1).last() == js@[i as int].model());
        }
        match get_text(&js[i], "guid") {
            Some(g) => {
                let ghost before = out@;
                out.push(g);
                proof {
                    assert(string_views(out@) =~= string_views(before).push(g@));
                }
            },
            None => {
                proof {
                    lemma_guids_of_none(jm, i as int + 1);
                }
                return Err(ConnectionError::InvalidParams);
            },
        }
        i = i + 1;
    }
    proof {
        assert(jm.take(i as int) =~= jm);
    }
    Ok(out)
}

proof fn lemma_guids_of_none(js: Seq<JsonM>, k: int)
    requires
        0 <= k <= js.len(),
        guids_of(js.take(k)) is None,
    ensures
        guids_of(js) is None,
    decreases js.len() - k,
{
    if k == js.len() {
        assert(js.take(k) =~= js);
    } else {
        assert(js.take(k + 1).drop_last() =~= js.take(k));
        lemma_guids_of_none(js, k + 1);
    }
}

/// Reads an inbound frame. A frame with a numeric `id` is a result: its
/// `error` member, when present, makes it a remote error; otherwise its
/// `result` carries the value (`undefined` when absent) and the handle
/// list. Any other frame names a target `guid` and a `method`: the
/// reserved names announce a creation (from `params`: `type`, `guid`,
/// `initializer`) or a disposal, and every other name is an event. A frame
/// that lacks what its kind needs fails with `InvalidParams`.
pub fn inbound_from_json(j: &Json) -> (r: Result<Inbound, ConnectionError>)
    ensures
        r is Err ==> r == Err::<Inbound, ConnectionError>(ConnectionError::InvalidParams),
        frame_id(j.model()) is Some ==> ({
            let id = frame_id(j.model())->0;
            let m = j.model();
            match field(m, "error"@) {
                Some(e) => r is Ok && r->Ok_0 is Result && r->Ok_0->Result_id == id
                    && r->Ok_0->Result_outcome is RemoteError
                    && r->Ok_0->Result_outcome->RemoteError_message@ == text_or_empty(e, "message"@)
                    && r->Ok_0->Result_outcome->RemoteError_stack@ == text_or_empty(e, "stack"@),
                None => {
                    let res = field_or_null(m, "result"@);
                    &&& r is Ok <==> (result_value(res) is Some && result_handles(res) is Some)
                    &&& r is Ok ==> r->Ok_0 is Result && r->Ok_0->Result_id == id
                        && r->Ok_0->Result_outcome is Success
                        && r->Ok_0->Result_outcome->Success_value.model() == result_value(res)->0
                        && string_views(r->Ok_0->Result_outcome->Success_handles@) == result_handles(res)->0
                },
            }
        }),
        frame_id(j.model()) is None ==> ({
            let m = j.model();
            let p = field_or_null(m, "params"@);
            match (text_field(m, "guid"@), text_field(m, "method"@)) {
                (Some(g), Some(meth)) => match method_kind(meth) {
                    FrameMethod::Create => {
                        &&& r is Ok <==> (text_field(p, "type"@) is Some && text_field(p, "guid"@) is Some)
                        &&& r is Ok ==> r->Ok_0 is Create && r->Ok_0->Create_parent@ == g
                            && r->Ok_0->Create_typ@ == text_field(p, "type"@)->0
                            && r->Ok_0->Create_guid@ == text_field(p, "guid"@)->0
                            && r->Ok_0->Create_initializer.model() == field_or_null(p, "initializer"@)
                    },
                    FrameMethod::Dispose => r is Ok && r->Ok_0 is Dispose && r->Ok_0->Dispose_guid@ == g,
                    FrameMethod::Event => r is Ok && r->Ok_0 is Event && r->Ok_0->Event_guid@ == g
                        && r->Ok_0->Event_method@ == meth,
                },
                _ => r is Err,
            }
        }),
{
    let id = match get(j, "id") {
        Some(Json::UInt(id)) => Some(*id),
        _ => None,
    };
    match id {
        Some(id) => {
            if let Some(e) = get(j, "error") {
                let message = match get_text(e, "message") {
                    Some(t) => t,
                    None => String::new(),
                };
                let stack = match get_text(e, "stack") {
                    Some(t) => t,
                    None => String::new(),
                };
                return Ok(Inbound::Result { id, outcome: Outcome::RemoteError { message, stack } });
            }
            let null = Json::Null;
            let res = match get(j, "result") {
                Some(x) => x,
                None => &null,
            };
            let value = match get(res, "value") {
                None => WireValue::Special(Special::Undefined),
                Some(v) => match wire_from_json(v) {
                    Ok(w) => w,
                    Err(_) => return Err(ConnectionError::InvalidParams),
                },
            };
            let handles = match read_handles(get(res, "handles")) {
                Ok(h) => h,
                Err(e) => return Err(e),
            };
            Ok(Inbound::Result { id, outcome: Outcome::Success { value, handles } })
        },
        None => {
            let guid = match get_text(j, "guid") {
                Some(g) => g,
                None => return Err(ConnectionError::InvalidParams),
            };
            let method = match get_text(j, "method") {
                Some(t) => t,
                None => return Err(ConnectionError::InvalidParams),
            };
            match classify(method.as_str()) {
                FrameMethod::Create => {
                    let null = Json::Null;
                    let p = match get(j, "params") {
                        Some(x) => x,
                        None => &null,
                    };
                    let typ = match get_text(p, "type") {
                        Some(t) => t,
                        None => return Err(ConnectionError::InvalidParams),
                    };
                    let child = match get_text(p, "guid") {
                        Some(t) => t,
                        None => return Err(ConnectionError::InvalidParams),
                    };
                    let initializer = match get(p, "initializer") {
                        Some(x) => x.copy(),
                        None => Json::Null,
                    };
                    Ok(Inbound::Create { parent: guid, typ, guid: child, initializer })
                },
                FrameMethod::Dispose => Ok(Inbound::Dispose { guid }),
                FrameMethod::Event => Ok(Inbound::Event { guid, method }),
            }
        },
    }
}

/// The JSON members for request parameters: each value in tagged form.
pub open spec fn params_json(es: Seq<(Seq<char>, Wire)>) -> Seq<(Seq<char>, JsonM)> {
    Seq::new(es.len(), |k: int| (es[k].0, to_json(es[k].1)))
}

/// The body of an outgoing request: `{id, guid, method, params}`.
pub fn request_to_json(q: &Request) -> (r: Json)
    ensures
        r.model() == JsonM::Object(
            seq![
                ("id"@, JsonM::UInt(q.id)),
                ("guid"@, JsonM::Str(q.guid@)),
                ("method"@, JsonM::Str(q.method@)),
                ("params"@, JsonM::Object(params_json(entry_models(q.params@)))),
            ],
        ),
{
    let mut params: Vec<Member> = Vec::new();
    let mut i: usize = 0;
    while i < q.params.len()
        invariant
            i <= q.params@.len(),
            params@.len() == i,
            forall|k: int|
                0 <= k < i ==> (#[trigger] params@[k]).key@ == q.params@[k].key@ && params@[k].value.model()
                    == to_json(q.params@[k].value.model()),
        decreases q.params@.len() - i,
    {
        params.push(Member { key: q.params[i].key.clone(), value: wire_to_json(&q.params[i].value) });
        i = i + 1;
    }
    assert(member_models(params@) =~= params_json(entry_models(q.params@)));
    let mut ms: Vec<Member> = Vec::new();
    ms.push(Member { key: "id".to_owned(), value: Json::UInt(q.id) });
    ms.push(Member { key: "guid".to_owned(), value: Json::Str(q.guid.clone()) });
    ms.push(Member { key: "method".to_owned(), value: Json::Str(q.method.clone()) });
    let ghost pm = member_models(params@);
    ms.push(Member { key: "params".to_owned(), value: Json::Object(params) });
    assert(member_models(ms@) =~= seq![
        ("id"@, JsonM::UInt(q.id)),
        ("guid"@, JsonM::Str(q.guid@)),
        ("method"@, JsonM::Str(q.method@)),
        ("params"@, JsonM::Object(pm)),
    ]);
    Json::Object(ms)
}

} // verus!
