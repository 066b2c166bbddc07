//! A plain JSON tree, and the tagged JSON form of wire values.
use vstd::prelude::*;
use crate::wire::{marker_of, Special, Wire};

verus! {

broadcast use vstd::seq_lib::group_seq_properties, vstd::std_specs::vec::group_vec_axioms;

/// A JSON document as a tree; object members keep their order.
#[derive(Debug)]
pub enum Json {
    Null,
    Bool(bool),
    Int(i64),
    UInt(u64),
    /// Any other number, as its JSON text.
    Number(String),
    Str(String),
    Array(Vec<Json>),
    Object(Vec<Member>),
}

/// One `"key": value` member of a JSON object.
#[derive(Debug)]
pub struct Member {
    pub key: String,
    pub value: Json,
}

/// Mathematical model of a [`Json`] tree.
pub enum JsonM {
    Null,
    Bool(bool),
    Int(i64),
    UInt(u64),
    Number(Seq<char>),
    Str(Seq<char>),
    Array(Seq<JsonM>),
    Object(Seq<(Seq<char>, JsonM)>),
}

impl Json {
    pub open spec fn model(&self) -> JsonM
        decreases self,
    {
        match self {
            Json::Null => JsonM::Null,
            Json::Bool(b) => JsonM::Bool(*b),
            Json::Int(n) => JsonM::Int(*n),
            Json::UInt(n) => JsonM::UInt(*n),
            Json::Number(t) => JsonM::Number(t@),
            Json::Str(s) => JsonM::Str(s@),
            Json::Array(a) => JsonM::Array(json_models(a@)),
            Json::Object(ms) => JsonM::Object(member_models(ms@)),
        }
    }
}

pub open spec fn json_models(s: Seq<Json>) -> Seq<JsonM>
    decreases s,
{
    Seq::new(s.len(), |i: int| if 0 <= i < s.len() { s[i].model() } else { JsonM::Null })
}

pub open spec fn member_models(s: Seq<Member>) -> Seq<(Seq<char>, JsonM)>
    decreases s,
{
    Seq::new(
        s.len(),
        |i: int| if 0 <= i < s.len() { (s[i].key@, s[i].value.model()) } else { (Seq::empty(), JsonM::Null) },
    )
}

/// `{tag: j}`
pub open spec fn tagged(tag: Seq<char>, j: JsonM) -> JsonM {
    JsonM::Object(seq![(tag, j)])
}

/// `{"k": key, "v": value}`
pub open spec fn entry_json(key: Seq<char>, value: JsonM) -> JsonM {
    JsonM::Object(seq![("k"@, JsonM::Str(key)), ("v"@, value)])
}

/// The tagged JSON form of a wire value.
pub open spec fn to_json(w: Wire) -> JsonM
    decreases w,
{
    match w {
        Wire::Bool(b) => tagged("b"@, JsonM::Bool(b)),
        Wire::Int(n) => tagged("n"@, JsonM::Int(n)),
        Wire::UInt(n) => tagged("n"@, JsonM::UInt(n)),
        Wire::Decimal(d) => tagged("n"@, JsonM::Number(d)),
        Wire::Special(s) => tagged("v"@, JsonM::Str(marker_of(s))),
        Wire::Str(s) => tagged("s"@, JsonM::Str(s)),
        Wire::Date(s) => tagged("d"@, JsonM::Str(s)),
        Wire::Handle(i) => tagged("h"@, JsonM::UInt(i as u64)),
        Wire::Array(ws) => tagged("a"@, JsonM::Array(to_json_list(ws))),
        Wire::Object(es) => tagged("o"@, JsonM::Array(to_json_entries(es))),
    }
}

pub open spec fn to_json_list(ws: Seq<Wire>) -> Seq<JsonM>
    decreases ws,
{
    Seq::new(ws.len(), |k: int| if 0 <= k < ws.len() { to_json(ws[k]) } else { JsonM::Null })
}

pub open spec fn to_json_entries(es: Seq<(Seq<char>, Wire)>) -> Seq<JsonM>
    decreases es,
{
    Seq::new(es.len(), |k: int| if 0 <= k < es.len() { entry_json(es[k].0, to_json(es[k].1)) } else { JsonM::Null })
}

/// The special value a marker stands for, if any.
pub open spec fn special_of(m: Seq<char>) -> Option<Special> {
    if m == marker_of(Special::Null) {
        Some(Special::Null)
    } else if m == marker_of(Special::Undefined) {
        Some(Special::Undefined)
    } else if m == marker_of(Special::NaN) {
        Some(Special::NaN)
    } else if m == marker_of(Special::Infinity) {
        Some(Special::Infinity)
    } else if m == marker_of(Special::NegInfinity) {
        Some(Special::NegInfinity)
    } else if m == marker_of(Special::NegZero) {
        Some(Special::NegZero)
    } else {
        None
    }
}

/// The wire value a tagged JSON tree stands for; `None` when it is
/// malformed (an unknown tag, a payload of the wrong type, an entry
/// without its key or its value).
pub open spec fn from_json(j: JsonM) -> Option<Wire>
    decreases j,
{
    match j {
        JsonM::Object(ms) => if ms.len() != 1 {
            None
        } else if ms[0].0 == "b"@ {
            match ms[0].1 {
                JsonM::Bool(b) => Some(Wire::Bool(b)),
                _ => None,
            }
        } else if ms[0].0 == "n"@ {
            match ms[0].1 {
                JsonM::Int(n) => Some(Wire::Int(n)),
                JsonM::UInt(n) => Some(Wire::UInt(n)),
                JsonM::Number(d) => Some(Wire::Decimal(d)),
                _ => None,
            }
        } else if ms[0].0 == "v"@ {
            match ms[0].1 {
                JsonM::Str(m) => match special_of(m) {
                    Some(s) => Some(Wire::Special(s)),
                    None => None,
                },
                _ => None,
            }
        } else if ms[0].0 == "s"@ {
            match ms[0].1 {
                JsonM::Str(s) => Some(Wire::Str(s)),
                _ => None,
            }
        } else if ms[0].0 == "d"@ {
            match ms[0].1 {
                JsonM::Str(s) => Some(Wire::Date(s)),
                _ => None,
            }
        } else if ms[0].0 == "h"@ {
            match ms[0].1 {
                JsonM::UInt(i) => if i <= usize::MAX {
                    Some(Wire::Handle(i as nat))
                } else {
                    None
                },
                _ => None,
            }
        } else if ms[0].0 == "a"@ {
            match ms[0].1 {
                JsonM::Array(js) => match from_json_list(js) {
                    Some(ws) => Some(Wire::Array(ws)),
                    None => None,
                },
                _ => None,
            }
        } else if ms[0].0 == "o"@ {
            match ms[0].1 {
                JsonM::Array(js) => match from_json_entries(js) {
                    Some(es) => Some(Wire::Object(es)),
                    None => None,
                },
                _ => None,
            }
        } else {
            None
        },
        _ => None,
    }
}

pub open spec fn from_json_list(js: Seq<JsonM>) -> Option<Seq<Wire>>
    decreases js,
{
    if js.len() == 0 {
        Some(Seq::empty())
    } else {
        match from_json_list(js.drop_last()) {
            None => None,
            Some(ws) => match from_json(js.last()) {
                Some(w) => Some(ws.push(w)),
                None => None,
            },
        }
    }
}

/// An entry `{"k": key, "v": value}`, its two members in that order.
pub open spec fn from_json_entry(j: JsonM) -> Option<(Seq<char>, Wire)>
    decreases j,
{
    match j {
        JsonM::Object(ms) => if ms.len() == 2 && ms[0].0 == "k"@ && ms[1].0 == "v"@ && ms[0].1 is Str {
            match from_json(ms[1].1) {
                Some(w) => Some((ms[0].1->Str_0, w)),
                None => None,
            }
        } else {
            None
        },
        _ => None,
    }
}

pub open spec fn from_json_entries(js: Seq<JsonM>) -> Option<Seq<(Seq<char>, Wire)>>
    decreases js,
{
    if js.len() == 0 {
        Some(Seq::empty())
    } else {
        match from_json_entries(js.drop_last()) {
            None => None,
            Some(es) => match from_json_entry(js.last()) {
                Some(e) => Some(es.push(e)),
                None => None,
            },
        }
    }
}

/// The value of the first member named `key`.
pub open spec fn member(ms: Seq<(Seq<char>, JsonM)>, key: Seq<char>) -> Option<JsonM>
    decreases ms.len(),
{
    if ms.len() == 0 {
        None
    } else if ms[0].0 == key {
        Some(ms[0].1)
    } else {
        member(ms.skip(1), key)
    }
}

/// The member `key` of an object; nothing for any other value.
pub open spec fn field(j: JsonM, key: Seq<char>) -> Option<JsonM> {
    match j {
        JsonM::Object(ms) => member(ms, key),
        _ => None,
    }
}

/// The member `key` when it is a string.
pub open spec fn text_field(j: JsonM, key: Seq<char>) -> Option<Seq<char>> {
    match field(j, key) {
        Some(JsonM::Str(s)) => Some(s),
        _ => None,
    }
}

/// Looks up the first member named `key` of an object.
pub fn get<'a>(j: &'a Json, key: &str) -> (r: Option<&'a Json>)
    ensures
        match field(j.model(), key@) {
            Some(v) => r is Some && r->0.model() == v,
            None => r is None,
        },
{
    let ms = match j {
        Json::Object(ms) => ms,
        _ => return None,
    };
    let ghost mm = member_models(ms@);
    let k = key.to_owned();
    let mut i: usize = 0;
    while i < ms.len()
        invariant
            i <= ms@.len(),
            k@ == key@,
            mm == member_models(ms@),
            j.model() == JsonM::Object(mm),
            member(mm, key@) == member(mm.skip(i as int), key@),
        decreases ms@.len() - i,
    {
        proof {
            assert(mm.skip(i as int)[0] == mm[i as int]);
            assert(mm.skip(i as int).skip(1) =~= mm.skip(i + 1));
        }
        if ms[i].key == k {
            return Some(&ms[i].value);
        }
        i = i + 1;
    }
    proof {
        assert(mm.skip(i as int).len() == 0);
    }
    None
}

/// The member `key` when it is a string.
pub fn get_text(j: &Json, key: &str) -> (r: Option<String>)
    ensures
        match text_field(j.model(), key@) {
            Some(s) => r is Some && r->0@ == s,
            None => r is None,
        },
{
    match get(j, key) {
        Some(Json::Str(s)) => Some(s.clone()),
        _ => None,
    }
}

impl Json {
    /// A deep copy.
    #[verifier::loop_isolation(false)]
    pub fn copy(&self) -> (r: Json)
        ensures
            r.model() == self.model(),
        decreases self,
    {
        match self {
            Json::Null => Json::Null,
            Json::Bool(b) => Json::Bool(*b),
            Json::Int(n) => Json::Int(*n),
            Json::UInt(n) => Json::UInt(*n),
            Json::Number(t) => Json::Number(t.clone()),
            Json::Str(t) => Json::Str(t.clone()),
            Json::Array(a) => {
                let mut out: Vec<Json> = Vec::new();
                let mut i: usize = 0;
                while i < a.len()
                    invariant
                        i <= a@.len(),
                        out@.len() == i,
                        forall|k: int| 0 <= k < i ==> (#[trigger] out@[k]).model() == a@[k].model(),
                    decreases a@.len() - i,
                {
                    proof {
                        assert(decreases_to!(a => a[i as int]));
                    }
                    let x = a[i].copy();
                    out.push(x);
                    i = i + 1;
                }
                assert(json_models(out@) =~= json_models(a@));
                Json::Array(out)
            },
            Json::Object(ms) => {
                let mut out: Vec<Member> = Vec::new();
                let mut i: usize = 0;
                while i < ms.len()
                    invariant
                        i <= ms@.len(),
                        out@.len() == i,
                        forall|k: int|
                            0 <= k < i ==> (#[trigger] out@[k]).key@ == ms@[k].key@ && out@[k].value.model()
                                == ms@[k].value.model(),
                    decreases ms@.len() - i,
                {
                    proof {
                        assert(decreases_to!(ms => ms[i as int]));
                    }
                    let v = ms[i].value.copy();
                    out.push(Member { key: ms[i].key.clone(), value: v });
                    i = i + 1;
                }
                assert(member_models(out@) =~= member_models(ms@));
                Json::Object(out)
            },
        }
    }
}

} // verus!
