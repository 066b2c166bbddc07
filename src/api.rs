//! Caller-facing handles on remote objects. Each holds a non-owning guid
//! and re-resolves it through the registry on every use, so a disposed
//! object yields `ObjectNotFound` rather than stale data.
use vstd::prelude::*;
use crate::error::ConnectionError;
use crate::codec::string_views;
use crate::connection::{field_or_null, read_handles, text_or_empty, Connection};
use crate::json::{field, get, get_text, text_field, Json, JsonM};
use crate::correlator::Request;
use crate::registry::{ObjectKind, Registry};
use crate::wire::{WireEntry, WireValue};

verus! {

fn copy_string(s: &String) -> (r: String)
    ensures
        r@ == s@,
{
    s.clone()
}

/// Fails with `ObjectNotFound` unless `guid` is live.
fn upgrade(reg: &Registry, guid: &String) -> (r: Result<(), ConnectionError>)
    requires
        reg.wf(),
    ensures
        r is Ok <==> reg.live().contains(guid@),
        r is Err ==> r == Err::<(), ConnectionError>(ConnectionError::ObjectNotFound),
{
    if reg.contains(guid.as_str()) {
        Ok(())
    } else {
        Err(ConnectionError::ObjectNotFound)
    }
}

/// Where a console message was issued: URL, 0-based line and column.
#[derive(Debug)]
pub struct SourceLocation {
    pub url: String,
    pub line_number: u64,
    pub column_number: u64,
}

/// A message that a page logged to its console.
#[derive(Debug)]
pub struct ConsoleMessage {
    guid: String,
    message_type: String,
    text: String,
    location: SourceLocation,
    args: Vec<String>,
}

impl ConsoleMessage {
    pub closed spec fn guid(&self) -> Seq<char> {
        self.guid@
    }

    pub closed spec fn type_view(&self) -> Seq<char> {
        self.message_type@
    }

    pub closed spec fn text_view(&self) -> Seq<char> {
        self.text@
    }

    pub closed spec fn location_view(&self) -> (Seq<char>, u64, u64) {
        (self.location.url@, self.location.line_number, self.location.column_number)
    }

    pub closed spec fn args_view(&self) -> Seq<String> {
        self.args@
    }

    /// A message of the object `guid`; `args` are the guids of its arguments.
    pub fn new(guid: String, message_type: String, text: String, location: SourceLocation, args: Vec<String>) -> (r: ConsoleMessage)
        ensures
            r.guid() == guid@,
            r.type_view() == message_type@,
            r.text_view() == text@,
            r.location_view() == (location.url@, location.line_number, location.column_number),
            r.args_view() == args@,
    {
        ConsoleMessage { guid, message_type, text, location, args }
    }

    /// The message announced for the object `guid` with the given
    /// initializer: `location` (`url`, `lineNumber`, `columnNumber`) and
    /// `args` (a list of `{"guid": ...}`) must be there, else it fails with
    /// `InvalidParams`; every argument must name a live JS handle, else it
    /// fails with `ObjectNotFound`. `type` and `text` default to empty.
    #[verifier::loop_isolation(false)]
    pub fn try_new(reg: &Registry, guid: String, initializer: &Json) -> (r: Result<ConsoleMessage, ConnectionError>)
        requires
            reg.wf(),
        ensures
            ({
                let m = initializer.model();
                let loc = field_or_null(m, "location"@);
                let shaped = text_field(loc, "url"@) is Some && uint_field(loc, "lineNumber"@) is Some
                    && uint_field(loc, "columnNumber"@) is Some && console_args(m) is Some;
                &&& !shaped ==> r == Err::<ConsoleMessage, ConnectionError>(ConnectionError::InvalidParams)
                &&& shaped ==> (r is Ok <==> forall|k: int|
                    0 <= k < console_args(m)->0.len() ==> is_js_handle(reg, #[trigger] console_args(m)->0[k]))
                &&& shaped && r is Err ==> r == Err::<ConsoleMessage, ConnectionError>(ConnectionError::ObjectNotFound)
                &&& r is Ok ==> ({
                    let c = r->Ok_0;
                    &&& c.guid() == guid@
                    &&& c.type_view() == text_or_empty(m, "type"@)
                    &&& c.text_view() == text_or_empty(m, "text"@)
                    &&& c.location_view() == (text_field(loc, "url"@)->0, uint_field(loc, "lineNumber"@)->0, uint_field(
                        loc,
                        "columnNumber"@,
                    )->0)
                    &&& string_views(c.args_view()) == console_args(m)->0
                })
            }),
    {
        let null = Json::Null;
        let loc = match get(initializer, "location") {
            Some(l) => l,
            None => &null,
        };
        let url = match get_text(loc, "url") {
            Some(u) => u,
            None => return Err(ConnectionError::InvalidParams),
        };
        let line_number = match get(loc, "lineNumber") {
            Some(Json::UInt(n)) => *n,
            _ => return Err(ConnectionError::InvalidParams),
        };
        let column_number = match get(loc, "columnNumber") {
            Some(Json::UInt(n)) => *n,
            _ => return Err(ConnectionError::InvalidParams),
        };
        let args = match get(initializer, "args") {
            Some(a) => match read_handles(Some(a)) {
                Ok(v) => v,
                Err(e) => return Err(e),
            },
            None => return Err(ConnectionError::InvalidParams),
        };
        let ghost gs = string_views(args@);
        let mut i: usize = 0;
        while i < args.len()
            invariant
                reg.wf(),
                i <= args@.len(),
                gs == string_views(args@),
                forall|k: int| 0 <= k < i ==> is_js_handle(reg, #[trigger] gs[k]),
            decreases args@.len() - i,
        {
            proof {
                assert(gs[i as int] == args@[i as int]@);
            }
            match reg.lookup(args[i].as_str()) {
                Ok(o) => {
                    if o.kind != ObjectKind::JsHandle {
                        proof {
                            assert(!is_js_handle(reg, gs[i as int]));
                        }
                        return Err(ConnectionError::ObjectNotFound);
                    }
                },
                Err(e) => {
                    proof {
                        assert(!is_js_handle(reg, gs[i as int]));
                    }
                    return Err(e);
                },
            }
            i = i + 1;
        }
        let message_type = match get_text(initializer, "type") {
            Some(t) => t,
            None => String::new(),
        };
        let text = match get_text(initializer, "text") {
            Some(t) => t,
            None => String::new(),
        };
        Ok(
            ConsoleMessage {
                guid,
                message_type,
                text,
                location: SourceLocation { url, line_number, column_number },
                args,
            },
        )
    }

    /// One of `log`, `debug`, `info`, `error`, `warning`, `dir`, ... as the
    /// engine reported it.
    pub fn message_type(&self, reg: &Registry) -> (r: Result<String, ConnectionError>)
        requires
            reg.wf(),
        ensures
            r is Ok <==> reg.live().contains(self.guid()),
            r is Ok ==> r->Ok_0@ == self.type_view(),
            r is Err ==> r == Err::<String, ConnectionError>(ConnectionError::ObjectNotFound),
    {
        match upgrade(reg, &self.guid) {
            Ok(()) => Ok(copy_string(&self.message_type)),
            Err(e) => Err(e),
        }
    }

    /// The text of the message.
    pub fn text(&self, reg: &Registry) -> (r: Result<String, ConnectionError>)
        requires
            reg.wf(),
        ensures
            r is Ok <==> reg.live().contains(self.guid()),
            r is Ok ==> r->Ok_0@ == self.text_view(),
            r is Err ==> r == Err::<String, ConnectionError>(ConnectionError::ObjectNotFound),
    {
        match upgrade(reg, &self.guid) {
            Ok(()) => Ok(copy_string(&self.text)),
            Err(e) => Err(e),
        }
    }

    /// The resource URL with the line and column of the call.
    pub fn location(&self, reg: &Registry) -> (r: Result<SourceLocation, ConnectionError>)
        requires
            reg.wf(),
        ensures
            r is Ok <==> reg.live().contains(self.guid()),
            r is Ok ==> (r->Ok_0.url@, r->Ok_0.line_number, r->Ok_0.column_number) == self.location_view(),
            r is Err ==> r == Err::<SourceLocation, ConnectionError>(ConnectionError::ObjectNotFound),
    {
        match upgrade(reg, &self.guid) {
            Ok(()) => Ok(
                SourceLocation {
                    url: copy_string(&self.location.url),
                    line_number: self.location.line_number,
                    column_number: self.location.column_number,
                },
            ),
            Err(e) => Err(e),
        }
    }

    /// Guids of the values passed to the console call, in order.
    pub fn args(&self, reg: &Registry) -> (r: Result<Vec<String>, ConnectionError>)
        requires
            reg.wf(),
        ensures
            r is Ok <==> reg.live().contains(self.guid()),
            r is Ok ==> r->Ok_0@ == self.args_view(),
            r is Err ==> r == Err::<Vec<String>, ConnectionError>(ConnectionError::ObjectNotFound),
    {
        if let Err(e) = upgrade(reg, &self.guid) {
            return Err(e);
        }
        let mut out: Vec<String> = Vec::new();
        let mut i: usize = 0;
        while i < self.args.len()
            invariant
                i <= self.args@.len(),
                out@ == self.args@.take(i as int),
            decreases self.args@.len() - i,
        {
            out.push(self.args[i].clone());
            assert(out@ =~= self.args@.take(i + 1));
            i = i + 1;
        }
        assert(out@ =~= self.args@);
        Ok(out)
    }
}

/// A recorded video of a page.
#[derive(Debug)]
pub struct Video {
    guid: String,
    path: String,
}

impl Video {
    pub closed spec fn guid(&self) -> Seq<char> {
        self.guid@
    }

    pub closed spec fn path_view(&self) -> Seq<char> {
        self.path@
    }

    /// The video of the artifact `guid`, written to `path`.
    pub fn new(guid: String, path: String) -> (r: Video)
        ensures
            r.guid() == guid@,
            r.path_view() == path@,
    {
        Video { guid, path }
    }

    /// Where the video is written.
    pub fn path(&self, reg: &Registry) -> (r: Result<String, ConnectionError>)
        requires
            reg.wf(),
        ensures
            r is Ok <==> reg.live().contains(self.guid()),
            r is Ok ==> r->Ok_0@ == self.path_view(),
            r is Err ==> r == Err::<String, ConnectionError>(ConnectionError::ObjectNotFound),
    {
        match upgrade(reg, &self.guid) {
            Ok(()) => Ok(copy_string(&self.path)),
            Err(e) => Err(e),
        }
    }
}

/// A web worker of a page.
#[derive(Debug)]
pub struct Worker {
    guid: String,
    url: String,
}

impl Worker {
    pub closed spec fn guid(&self) -> Seq<char> {
        self.guid@
    }

    pub closed spec fn url_view(&self) -> Seq<char> {
        self.url@
    }

    pub fn new(guid: String, url: String) -> (r: Worker)
        ensures
            r.guid() == guid@,
            r.url_view() == url@,
    {
        Worker { guid, url }
    }

    /// The worker's script URL.
    pub fn url(&self, reg: &Registry) -> (r: Result<String, ConnectionError>)
        requires
            reg.wf(),
        ensures
            r is Ok <==> reg.live().contains(self.guid()),
            r is Ok ==> r->Ok_0@ == self.url_view(),
            r is Err ==> r == Err::<String, ConnectionError>(ConnectionError::ObjectNotFound),
    {
        match upgrade(reg, &self.guid) {
            Ok(()) => Ok(copy_string(&self.url)),
            Err(e) => Err(e),
        }
    }

    /// Two handles denote the same worker when both are live and name the
    /// same guid.
    pub fn same_as(&self, other: &Worker, reg: &Registry) -> (r: bool)
        requires
            reg.wf(),
        ensures
            r == (reg.live().contains(self.guid()) && reg.live().contains(other.guid()) && self.guid()
                == other.guid()),
    {
        reg.contains(self.guid.as_str()) && reg.contains(other.guid.as_str()) && self.guid == other.guid
    }
}

/// The registry of custom selector engines.
#[derive(Debug)]
pub struct Selectors {
    guid: String,
}

impl Selectors {
    pub closed spec fn guid(&self) -> Seq<char> {
        self.guid@
    }

    pub fn new(guid: String) -> (r: Selectors)
        ensures
            r.guid() == guid@,
    {
        Selectors { guid }
    }

    /// Issues `register` for a selector engine named `name` with source
    /// `script`; `contentScript` is sent only when set.
    pub fn register(&self, conn: &mut Connection, name: &str, script: &str, content_script: bool) -> (r: Result<Request, ConnectionError>)
        requires
            old(conn).wf(),
        ensures
            final(conn).wf(),
            final(conn).registry == old(conn).registry,
            old(conn).state == crate::connection::ConnState::Terminated ==> r == Err::<Request, ConnectionError>(
                ConnectionError::ReceiverClosed,
            ),
            r is Ok ==> ({
                let q = r->Ok_0;
                &&& q.guid@ == self.guid()
                &&& q.method@ == "register"@
                &&& q.params@.len() == if content_script { 3int } else { 2int }
                &&& q.params@[0].key@ == "name"@ && q.params@[0].value is Str && q.params@[0].value->Str_0@ == name@
                &&& q.params@[1].key@ == "source"@ && q.params@[1].value is Str && q.params@[1].value->Str_0@ == script@
                &&& content_script ==> q.params@[2].key@ == "contentScript"@ && q.params@[2].value == WireValue::Bool(true)
                &&& final(conn).correlator.pending() == old(conn).correlator.pending().insert(q.id)
            }),
            old(conn).state == crate::connection::ConnState::Connected && old(conn).correlator.next_id() < u64::MAX ==> r is Ok,
    {
        let mut params: Vec<WireEntry> = Vec::new();
        params.push(WireEntry { key: "name".to_owned(), value: WireValue::Str(name.to_owned()) });
        params.push(WireEntry { key: "source".to_owned(), value: WireValue::Str(script.to_owned()) });
        if content_script {
            params.push(WireEntry { key: "contentScript".to_owned(), value: WireValue::Bool(true) });
        }
        conn.call(copy_string(&self.guid), "register".to_owned(), params)
    }
}

/// The member `key` when it is an unsigned integer.
pub open spec fn uint_field(j: JsonM, key: Seq<char>) -> Option<u64> {
    match field(j, key) {
        Some(JsonM::UInt(n)) => Some(n),
        _ => None,
    }
}

/// The argument guids of a console message's initializer.
pub open spec fn console_args(m: JsonM) -> Option<Seq<Seq<char>>> {
    match field(m, "args"@) {
        Some(JsonM::Array(js)) => crate::connection::guids_of(js),
        _ => None,
    }
}

/// Whether `g` names a live JS handle.
pub open spec fn is_js_handle(reg: &Registry, g: Seq<char>) -> bool {
    reg.live().contains(g) && reg.object(g).kind == ObjectKind::JsHandle
}

/// Events that a worker emits.
#[derive(Clone, Copy, Debug, PartialEq, Eq, Structural)]
pub enum Event {
    Close,
}

} // verus!
