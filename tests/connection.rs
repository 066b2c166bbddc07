use driver_protocol::api::{ConsoleMessage, Selectors, SourceLocation, Video, Worker};
use driver_protocol::codec::decode;
use driver_protocol::connection::{classify, inbound_from_json, request_to_json, ConnState, Connection, Dispatched, FrameMethod, Inbound};
use driver_protocol::json::{Json, Member};
use driver_protocol::correlator::{Correlator, Outcome};
use driver_protocol::error::ConnectionError;
use driver_protocol::frame::{encode_frame, FrameReader};
use driver_protocol::native::Native;
use driver_protocol::registry::{object_kind, ObjectKind, Registry, ROOT_GUID};
use driver_protocol::wire::{Special, WireEntry, WireValue};

fn create(parent: &str, typ: &str, guid: &str) -> Inbound {
    Inbound::Create {
        parent: parent.to_string(),
        typ: typ.to_string(),
        guid: guid.to_string(),
        initializer: Json::Object(Vec::new()),
    }
}

fn success(id: u64, n: i64) -> Inbound {
    Inbound::Result { id, outcome: Outcome::Success { value: WireValue::Int(n), handles: Vec::new() } }
}

fn result_frame(id: u64, n: u64) -> Json {
    Json::Object(vec![
        m("id", Json::UInt(id)),
        m(
            "result",
            Json::Object(vec![
                m("value", Json::Object(vec![m("n", Json::UInt(n))])),
                m("handles", Json::Array(Vec::new())),
            ]),
        ),
    ])
}

#[test]
fn call_result_reaches_caller() {
    let mut c = Connection::new();
    let req = c.call("g1".to_string(), "foo".to_string(), Vec::new()).unwrap();
    assert_eq!(req.id, 1);
    assert_eq!(req.guid, "g1");
    assert_eq!(req.method, "foo");
    assert!(req.params.is_empty());
    let frame = inbound_from_json(&result_frame(1, 42)).unwrap();
    match c.dispatch(frame) {
        Dispatched::Completed(done) => {
            assert_eq!(done.id, 1);
            match done.outcome {
                Outcome::Success { value, handles } => {
                    let v = decode(&value, &handles, &c.registry).unwrap();
                    assert!(matches!(v, Native::UInt(42)));
                }
                _ => panic!("expected a success"),
            }
        }
        other => panic!("unexpected {:?}", other),
    }
}

#[test]
fn create_then_dispose_generic_object() {
    let mut c = Connection {
        registry: Registry::with_root("root".to_string()),
        correlator: Correlator::new(),
        state: ConnState::Connected,
    };
    let create = Json::Object(vec![
        m("guid", s("root")),
        m("method", s("__create__")),
        m("params", Json::Object(vec![m("type", s("Dummy")), m("guid", s("g2")), m("initializer", Json::Object(Vec::new()))])),
    ]);
    assert!(matches!(c.dispatch(inbound_from_json(&create).unwrap()), Dispatched::Created));
    let o = c.registry.lookup("g2").unwrap();
    assert_eq!(o.typ, "Dummy");
    assert_eq!(o.kind, ObjectKind::Generic);
    assert_eq!(o.parent.as_deref(), Some("root"));
    let dispose = Json::Object(vec![m("guid", s("g2")), m("method", s("__dispose__")), m("params", Json::Object(Vec::new()))]);
    assert!(matches!(c.dispatch(inbound_from_json(&dispose).unwrap()), Dispatched::Disposed));
    assert!(matches!(c.registry.lookup("g2"), Err(ConnectionError::ObjectNotFound)));
}

#[test]
fn duplicate_result_is_ignored() {
    let mut c = Connection::new();
    let req = c.call("g1".to_string(), "m".to_string(), Vec::new()).unwrap();
    let first = c.dispatch(inbound_from_json(&result_frame(req.id, 7)).unwrap());
    match &first {
        Dispatched::Completed(done) => {
            assert!(matches!(done.outcome, Outcome::Success { value: WireValue::UInt(7), .. }))
        }
        other => panic!("unexpected {:?}", other),
    }
    let second = c.dispatch(inbound_from_json(&result_frame(req.id, 8)).unwrap());
    assert!(matches!(second, Dispatched::Unmatched(id) if id == req.id));
    assert!(matches!(first, Dispatched::Completed(ref d) if matches!(d.outcome, Outcome::Success { value: WireValue::UInt(7), .. })));
    assert!(!c.correlator.is_pending(req.id));
}

#[test]
fn every_call_resolves_once() {
    let mut c = Connection::new();
    let a = c.call("g".to_string(), "a".to_string(), Vec::new()).unwrap();
    let b = c.call("g".to_string(), "b".to_string(), Vec::new()).unwrap();
    let d = c.call("g".to_string(), "c".to_string(), Vec::new()).unwrap();
    assert!(a.id < b.id && b.id < d.id);
    let err = Inbound::Result {
        id: b.id,
        outcome: Outcome::RemoteError { message: "boom".to_string(), stack: "at x".to_string() },
    };
    match c.dispatch(err) {
        Dispatched::Completed(done) => {
            assert!(matches!(done.outcome, Outcome::RemoteError { ref message, .. } if message == "boom"))
        }
        other => panic!("unexpected {:?}", other),
    }
    assert!(matches!(c.dispatch(success(a.id, 1)), Dispatched::Completed(_)));
    let rest = c.terminate();
    assert_eq!(rest.len(), 1);
    assert_eq!(rest[0].id, d.id);
    assert!(matches!(rest[0].outcome, Outcome::Disconnected));
    assert!(c.terminate().is_empty());
    assert!(matches!(c.dispatch(success(d.id, 1)), Dispatched::Unmatched(_)));
    assert!(matches!(
        c.call("g".to_string(), "late".to_string(), Vec::new()),
        Err(ConnectionError::ReceiverClosed)
    ));
}

#[test]
fn cancel_removes_pending_slot() {
    let mut k = Correlator::new();
    let r = k.send("g".to_string(), "m".to_string(), Vec::new()).unwrap();
    assert!(k.is_pending(r.id));
    assert!(k.cancel(r.id));
    assert!(!k.is_pending(r.id));
    assert!(!k.cancel(r.id));
    assert!(k.resolve(r.id, Outcome::Disconnected).is_none());
    let r2 = k.send("g".to_string(), "m".to_string(), Vec::new()).unwrap();
    assert_eq!(r2.id, r.id + 1);
}

#[test]
fn create_with_missing_parent_changes_nothing() {
    let mut reg = Registry::new();
    let r = reg.create("nope", "Dummy".to_string(), "g3".to_string(), Json::Object(Vec::new()));
    assert!(matches!(r, Err(ConnectionError::ParentNotFound)));
    assert!(!reg.contains("g3"));
    assert!(reg.contains(ROOT_GUID));
    let mut c = Connection::new();
    assert!(matches!(
        c.dispatch(create("nope", "Dummy", "g3")),
        Dispatched::Dropped(ConnectionError::ParentNotFound)
    ));
    assert!(!c.registry.contains("g3"));
}

#[test]
fn resolvable_only_while_created_and_not_disposed() {
    let mut reg = Registry::new();
    assert!(matches!(reg.lookup("a"), Err(ConnectionError::ObjectNotFound)));
    reg.create(ROOT_GUID, "T".to_string(), "a".to_string(), Json::Object(Vec::new())).unwrap();
    reg.create("a", "T".to_string(), "b".to_string(), Json::Object(Vec::new())).unwrap();
    assert!(reg.lookup("a").is_ok() && reg.lookup("b").is_ok());
    reg.dispose("a");
    assert!(matches!(reg.lookup("a"), Err(ConnectionError::ObjectNotFound)));
    assert!(reg.lookup("b").is_ok());
    reg.dispose("a");
    assert!(matches!(reg.lookup("a"), Err(ConnectionError::ObjectNotFound)));
    reg.create(ROOT_GUID, "T".to_string(), "a".to_string(), Json::Object(vec![Member { key: "x".to_string(), value: Json::UInt(1) }])).unwrap();
    assert!(matches!(&reg.lookup("a").unwrap().initializer, Json::Object(ms) if ms.len() == 1 && ms[0].key == "x"));
}

#[test]
fn known_types_get_their_kind() {
    assert_eq!(object_kind(&"Playwright".to_string()), ObjectKind::Playwright);
    assert_eq!(object_kind(&"Selectors".to_string()), ObjectKind::Selectors);
    assert_eq!(object_kind(&"BrowserType".to_string()), ObjectKind::BrowserType);
    assert_eq!(object_kind(&"SomethingNew".to_string()), ObjectKind::Generic);
}

#[test]
fn events_fan_out_to_subscribers() {
    let mut c = Connection::new();
    c.dispatch(create(ROOT_GUID, "Page", "p"));
    let s1 = c.registry.subscribe("p", "close".to_string()).unwrap();
    let s2 = c.registry.subscribe("p", "load".to_string()).unwrap();
    let s3 = c.registry.subscribe("p", "close".to_string()).unwrap();
    assert!(s1 < s2 && s2 < s3);
    assert!(matches!(c.registry.subscribe("q", "close".to_string()), Err(ConnectionError::ObjectNotFound)));
    match c.dispatch(Inbound::Event { guid: "p".to_string(), method: "close".to_string() }) {
        Dispatched::Delivered(ids) => assert_eq!(ids, vec![s1, s3]),
        other => panic!("unexpected {:?}", other),
    }
    match c.dispatch(Inbound::Event { guid: "gone".to_string(), method: "close".to_string() }) {
        Dispatched::Delivered(ids) => assert!(ids.is_empty()),
        other => panic!("unexpected {:?}", other),
    }
}

#[test]
fn frame_methods_are_classified() {
    assert_eq!(classify("__create__"), FrameMethod::Create);
    assert_eq!(classify("__dispose__"), FrameMethod::Dispose);
    assert_eq!(classify("console"), FrameMethod::Event);
}

#[test]
fn initial_object_wait() {
    let mut c = Connection::new();
    assert_eq!(c.initial_object_ready(), Ok(false));
    c.dispatch(create(ROOT_GUID, "Playwright", "Playwright"));
    assert_eq!(c.initial_object_ready(), Ok(true));
    let mut d = Connection::new();
    d.dispatch(create(ROOT_GUID, "Other", "Playwright"));
    assert_eq!(d.initial_object_ready(), Err(ConnectionError::ObjectNotFound));
    let mut e = Connection::new();
    e.terminate();
    assert_eq!(e.initial_object_ready(), Err(ConnectionError::ReceiverClosed));
}

#[test]
fn frames_round_trip() {
    let body = b"{\"id\":1}".to_vec();
    let f = encode_frame(&body);
    assert_eq!(&f[..4], &[8, 0, 0, 0]);
    assert_eq!(&f[4..], &body[..]);
    let big = vec![7u8; 300];
    let g = encode_frame(&big);
    assert_eq!(&g[..4], &[44, 1, 0, 0]);
    let mut r = FrameReader::new();
    r.feed(&f[..3]);
    assert_eq!(r.next_frame(), None);
    r.feed(&f[3..]);
    r.feed(&g);
    assert_eq!(r.next_frame(), Some(body));
    assert_eq!(r.next_frame(), Some(big));
    assert_eq!(r.next_frame(), None);
}

#[test]
fn empty_frame() {
    let f = encode_frame(&Vec::new());
    assert_eq!(f, vec![0, 0, 0, 0]);
    let mut r = FrameReader::new();
    r.feed(&f);
    assert_eq!(r.next_frame(), Some(Vec::new()));
}

#[test]
fn handles_fail_after_disposal() {
    let mut reg = Registry::new();
    reg.create(ROOT_GUID, "ConsoleMessage".to_string(), "m".to_string(), Json::Object(Vec::new())).unwrap();
    let loc = SourceLocation { url: "http://x/".to_string(), line_number: 3, column_number: 9 };
    let msg = ConsoleMessage::new(
        "m".to_string(),
        "log".to_string(),
        "hello".to_string(),
        loc,
        vec!["h1".to_string(), "h2".to_string()],
    );
    assert_eq!(msg.message_type(&reg).unwrap(), "log");
    assert_eq!(msg.text(&reg).unwrap(), "hello");
    let l = msg.location(&reg).unwrap();
    assert_eq!((l.url.as_str(), l.line_number, l.column_number), ("http://x/", 3, 9));
    assert_eq!(msg.args(&reg).unwrap(), vec!["h1".to_string(), "h2".to_string()]);
    reg.dispose("m");
    assert_eq!(msg.text(&reg), Err(ConnectionError::ObjectNotFound));
    assert_eq!(msg.message_type(&reg), Err(ConnectionError::ObjectNotFound));
    assert!(msg.location(&reg).is_err());
    assert!(msg.args(&reg).is_err());
}

#[test]
fn worker_and_video_handles() {
    let mut reg = Registry::new();
    reg.create(ROOT_GUID, "Worker".to_string(), "w".to_string(), Json::Object(Vec::new())).unwrap();
    reg.create(ROOT_GUID, "Artifact".to_string(), "v".to_string(), Json::Object(Vec::new())).unwrap();
    let w = Worker::new("w".to_string(), "http://x/w.js".to_string());
    let w2 = Worker::new("w".to_string(), "http://x/w.js".to_string());
    let v = Video::new("v".to_string(), "/tmp/a.webm".to_string());
    assert_eq!(w.url(&reg).unwrap(), "http://x/w.js");
    assert!(w.same_as(&w2, &reg));
    assert_eq!(v.path(&reg).unwrap(), "/tmp/a.webm");
    reg.dispose("w");
    assert_eq!(w.url(&reg), Err(ConnectionError::ObjectNotFound));
    assert!(!w.same_as(&w2, &reg));
    reg.dispose("v");
    assert_eq!(v.path(&reg), Err(ConnectionError::ObjectNotFound));
}

#[test]
fn request_params_are_kept() {
    let mut c = Connection::new();
    let params = vec![WireEntry { key: "x".to_string(), value: WireValue::Bool(true) }];
    let r = c.call("g".to_string(), "m".to_string(), params).unwrap();
    assert_eq!(r.params.len(), 1);
    assert_eq!(r.params[0].key, "x");
    assert!(matches!(r.params[0].value, WireValue::Bool(true)));
}

fn m(k: &str, v: Json) -> Member {
    Member { key: k.to_string(), value: v }
}

fn s(t: &str) -> Json {
    Json::Str(t.to_string())
}

fn console_init(args: &[&str]) -> Json {
    Json::Object(vec![
        m("type", s("log")),
        m("text", s("hi")),
        m(
            "location",
            Json::Object(vec![m("url", s("u")), m("lineNumber", Json::UInt(4)), m("columnNumber", Json::UInt(2))]),
        ),
        m("args", Json::Array(args.iter().map(|g| Json::Object(vec![m("guid", s(g))])).collect())),
    ])
}

#[test]
fn console_message_needs_live_js_handles() {
    let mut reg = Registry::new();
    reg.create(ROOT_GUID, "JSHandle".to_string(), "h1".to_string(), Json::Object(Vec::new())).unwrap();
    reg.create(ROOT_GUID, "Page".to_string(), "p".to_string(), Json::Object(Vec::new())).unwrap();
    reg.create(ROOT_GUID, "ConsoleMessage".to_string(), "c".to_string(), Json::Object(Vec::new())).unwrap();
    let ok = ConsoleMessage::try_new(&reg, "c".to_string(), &console_init(&["h1"])).unwrap();
    assert_eq!(ok.message_type(&reg).unwrap(), "log");
    assert_eq!(ok.text(&reg).unwrap(), "hi");
    let l = ok.location(&reg).unwrap();
    assert_eq!((l.url.as_str(), l.line_number, l.column_number), ("u", 4, 2));
    assert_eq!(ok.args(&reg).unwrap(), vec!["h1".to_string()]);
    let wrong_kind = ConsoleMessage::try_new(&reg, "c".to_string(), &console_init(&["p"]));
    assert_eq!(wrong_kind.err(), Some(ConnectionError::ObjectNotFound));
    let missing = ConsoleMessage::try_new(&reg, "c".to_string(), &console_init(&["h1", "zz"]));
    assert_eq!(missing.err(), Some(ConnectionError::ObjectNotFound));
    let no_location = Json::Object(vec![m("args", Json::Array(Vec::new()))]);
    assert_eq!(ConsoleMessage::try_new(&reg, "c".to_string(), &no_location).err(), Some(ConnectionError::InvalidParams));
    let bare = Json::Object(vec![
        m("location", Json::Object(vec![m("url", s("u")), m("lineNumber", Json::UInt(0)), m("columnNumber", Json::UInt(0))])),
        m("args", Json::Array(Vec::new())),
    ]);
    let b = ConsoleMessage::try_new(&reg, "c".to_string(), &bare).unwrap();
    assert_eq!(b.message_type(&reg).unwrap(), "");
}

#[test]
fn inbound_frames_are_read() {
    let result = Json::Object(vec![
        m("id", Json::UInt(1)),
        m("result", Json::Object(vec![m("value", Json::Object(vec![m("n", Json::UInt(42))])), m("handles", Json::Array(Vec::new()))])),
    ]);
    match inbound_from_json(&result).unwrap() {
        Inbound::Result { id: 1, outcome: Outcome::Success { value: WireValue::UInt(42), handles } } => assert!(handles.is_empty()),
        other => panic!("unexpected {:?}", other),
    }
    let void = Json::Object(vec![m("id", Json::UInt(2))]);
    assert!(matches!(
        inbound_from_json(&void),
        Ok(Inbound::Result { id: 2, outcome: Outcome::Success { value: WireValue::Special(Special::Undefined), .. } })
    ));
    let err = Json::Object(vec![m("id", Json::UInt(3)), m("error", Json::Object(vec![m("message", s("boom")), m("stack", s("at"))]))]);
    match inbound_from_json(&err).unwrap() {
        Inbound::Result { id: 3, outcome: Outcome::RemoteError { message, stack } } => {
            assert_eq!((message.as_str(), stack.as_str()), ("boom", "at"))
        }
        other => panic!("unexpected {:?}", other),
    }
    let create = Json::Object(vec![
        m("guid", s("root")),
        m("method", s("__create__")),
        m("params", Json::Object(vec![m("type", s("Dummy")), m("guid", s("g2")), m("initializer", Json::Object(Vec::new()))])),
    ]);
    match inbound_from_json(&create).unwrap() {
        Inbound::Create { parent, typ, guid, initializer } => {
            assert_eq!((parent.as_str(), typ.as_str(), guid.as_str()), ("root", "Dummy", "g2"));
            assert!(matches!(initializer, Json::Object(ref v) if v.is_empty()));
        }
        other => panic!("unexpected {:?}", other),
    }
    let dispose = Json::Object(vec![m("guid", s("g2")), m("method", s("__dispose__"))]);
    assert!(matches!(inbound_from_json(&dispose), Ok(Inbound::Dispose { ref guid }) if guid == "g2"));
    let event = Json::Object(vec![m("guid", s("p")), m("method", s("console")), m("params", Json::Null)]);
    assert!(matches!(inbound_from_json(&event), Ok(Inbound::Event { ref guid, ref method }) if guid == "p" && method == "console"));
    let bad_create = Json::Object(vec![m("guid", s("root")), m("method", s("__create__")), m("params", Json::Object(vec![m("type", s("X"))]))]);
    assert_eq!(inbound_from_json(&bad_create).err(), Some(ConnectionError::InvalidParams));
    let no_method = Json::Object(vec![m("guid", s("root"))]);
    assert_eq!(inbound_from_json(&no_method).err(), Some(ConnectionError::InvalidParams));
    let bad_handles = Json::Object(vec![
        m("id", Json::UInt(4)),
        m("result", Json::Object(vec![m("handles", Json::Array(vec![Json::Object(vec![m("id", s("x"))])]))])),
    ]);
    assert_eq!(inbound_from_json(&bad_handles).err(), Some(ConnectionError::InvalidParams));
}

#[test]
fn selectors_register_builds_call() {
    let mut c = Connection::new();
    let s = Selectors::new("sel".to_string());
    let r = s.register(&mut c, "foo", "()", false).unwrap();
    assert_eq!(r.guid, "sel");
    assert_eq!(r.method, "register");
    let keys: Vec<&str> = r.params.iter().map(|e| e.key.as_str()).collect();
    assert_eq!(keys, vec!["name", "source"]);
    assert!(matches!(&r.params[0].value, WireValue::Str(s) if s == "foo"));
    assert!(matches!(&r.params[1].value, WireValue::Str(s) if s == "()"));
    let r2 = s.register(&mut c, "bar", "x", true).unwrap();
    assert_eq!(r2.params.len(), 3);
    assert_eq!(r2.params[2].key, "contentScript");
    assert!(matches!(r2.params[2].value, WireValue::Bool(true)));
    assert!(c.correlator.is_pending(r.id) && c.correlator.is_pending(r2.id));
}

#[test]
fn unsubscribe_removes_first_match() {
    let mut c = Connection::new();
    c.dispatch(create(ROOT_GUID, "Page", "p"));
    let a = c.registry.subscribe("p", "e".to_string()).unwrap();
    let b = c.registry.subscribe("p", "e".to_string()).unwrap();
    assert!(c.registry.unsubscribe("p", a));
    assert!(!c.registry.unsubscribe("p", a));
    assert!(!c.registry.unsubscribe("q", b));
    assert_eq!(c.registry.emit("p", "e"), vec![b]);
}

#[test]
fn request_body_shape() {
    let mut c = Connection::new();
    let params = vec![WireEntry { key: "x".to_string(), value: WireValue::Int(-1) }];
    let r = c.call("g1".to_string(), "foo".to_string(), params).unwrap();
    match request_to_json(&r) {
        Json::Object(ms) => {
            let keys: Vec<&str> = ms.iter().map(|x| x.key.as_str()).collect();
            assert_eq!(keys, vec!["id", "guid", "method", "params"]);
            assert!(matches!(ms[0].value, Json::UInt(1)));
            assert!(matches!(&ms[1].value, Json::Str(g) if g == "g1"));
            assert!(matches!(&ms[2].value, Json::Str(g) if g == "foo"));
            match &ms[3].value {
                Json::Object(ps) => {
                    assert_eq!(ps.len(), 1);
                    assert_eq!(ps[0].key, "x");
                    assert!(matches!(&ps[0].value, Json::Object(t) if t[0].key == "n" && matches!(t[0].value, Json::Int(-1))));
                }
                other => panic!("unexpected {:?}", other),
            }
        }
        other => panic!("unexpected {:?}", other),
    }
}
