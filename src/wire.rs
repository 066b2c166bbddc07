//! The tagged wire value of the protocol, and its mathematical model.
use vstd::prelude::*;

verus! {

broadcast use vstd::seq_lib::group_seq_properties, vstd::std_specs::vec::group_vec_axioms;

/// Scalar states that are sent as reserved markers (`{"v": ...}`) because
/// JSON has no literal for them.
#[derive(Clone, Copy, Debug, PartialEq, Eq, Structural)]
pub enum Special {
    Null,
    Undefined,
    NaN,
    Infinity,
    NegInfinity,
    NegZero,
}

/// One node of a wire value tree.
#[derive(Debug)]
pub enum WireValue {
    /// `{"b": ...}`
    Bool(bool),
    /// `{"n": ...}` for a signed integer
    Int(i64),
    /// `{"n": ...}` for an unsigned integer
    UInt(u64),
    /// `{"n": ...}` for a finite non-integral number, held as its JSON text
    Decimal(String),
    /// `{"v": ...}`
    Special(Special),
    /// `{"s": ...}`
    Str(String),
    /// `{"d": ...}`, a timestamp payload
    Date(String),
    /// `{"h": ...}`, an index into the message's handle list
    Handle(usize),
    /// `{"a": [...]}`
    Array(Vec<WireValue>),
    /// `{"o": [{"k": ..., "v": ...}, ...]}`, keys in order, duplicates kept
    Object(Vec<WireEntry>),
}

/// One `{"k": key, "v": value}` pair of an ordered object.
#[derive(Debug)]
pub struct WireEntry {
    pub key: String,
    pub value: WireValue,
}

/// Mathematical model of a [`WireValue`].
pub enum Wire {
    Bool(bool),
    Int(i64),
    UInt(u64),
    Decimal(Seq<char>),
    Special(Special),
    Str(Seq<char>),
    Date(Seq<char>),
    Handle(nat),
    Array(Seq<Wire>),
    Object(Seq<(Seq<char>, Wire)>),
}

impl WireValue {
    pub open spec fn model(&self) -> Wire
        decreases self,
    {
        match self {
            WireValue::Bool(b) => Wire::Bool(*b),
            WireValue::Int(n) => Wire::Int(*n),
            WireValue::UInt(n) => Wire::UInt(*n),
            WireValue::Decimal(d) => Wire::Decimal(d@),
            WireValue::Special(s) => Wire::Special(*s),
            WireValue::Str(s) => Wire::Str(s@),
            WireValue::Date(s) => Wire::Date(s@),
            WireValue::Handle(i) => Wire::Handle(*i as nat),
            WireValue::Array(a) => Wire::Array(wire_models(a@)),
            WireValue::Object(o) => Wire::Object(entry_models(o@)),
        }
    }
}

/// Models of a sequence of wire values, element by element.
pub open spec fn wire_models(s: Seq<WireValue>) -> Seq<Wire>
    decreases s,
{
    Seq::new(s.len(), |i: int| if 0 <= i < s.len() { s[i].model() } else { Wire::Bool(false) })
}

/// Models of a sequence of object entries, entry by entry.
pub open spec fn entry_models(s: Seq<WireEntry>) -> Seq<(Seq<char>, Wire)>
    decreases s,
{
    Seq::new(s.len(), |i: int| if 0 <= i < s.len() { (s[i].key@, s[i].value.model()) } else { (Seq::empty(), Wire::Bool(false)) })
}

/// The reserved string that stands for a special value under `"v"`.
pub open spec fn marker_of(s: Special) -> Seq<char> {
    match s {
        Special::Null => "null"@,
        Special::Undefined => "undefined"@,
        Special::NaN => "NaN"@,
        Special::Infinity => "Infinity"@,
        Special::NegInfinity => "-Infinity"@,
        Special::NegZero => "-0"@,
    }
}

pub fn special_marker(s: Special) -> (r: &'static str)
    ensures
        r@ == marker_of(s),
{
    match s {
        Special::Null => "null",
        Special::Undefined => "undefined",
        Special::NaN => "NaN",
        Special::Infinity => "Infinity",
        Special::NegInfinity => "-Infinity",
        Special::NegZero => "-0",
    }
}

/// Reads a reserved marker back; any other string is no marker.
pub fn special_from_marker(m: &str) -> (r: Option<Special>)
    ensures
        r is Some ==> marker_of(r->0) == m@,
        r is None ==> forall|s: Special| marker_of(s) != m@,
{
    proof {
        reveal_strlit("null");
        reveal_strlit("undefined");
        reveal_strlit("NaN");
        reveal_strlit("Infinity");
        reveal_strlit("-Infinity");
        reveal_strlit("-0");
    }
    let m = m.to_owned();
    if m == "null".to_owned() {
        Some(Special::Null)
    } else if m == "undefined".to_owned() {
        Some(Special::Undefined)
    } else if m == "NaN".to_owned() {
        Some(Special::NaN)
    } else if m == "Infinity".to_owned() {
        Some(Special::Infinity)
    } else if m == "-Infinity".to_owned() {
        Some(Special::NegInfinity)
    } else if m == "-0".to_owned() {
        Some(Special::NegZero)
    } else {
        None
    }
}

/// Each special value has its own marker, so the six states never merge.
pub proof fn lemma_markers_distinct(a: Special, b: Special)
    ensures
        marker_of(a) == marker_of(b) ==> a == b,
{
    reveal_strlit("null");
    reveal_strlit("undefined");
    reveal_strlit("NaN");
    reveal_strlit("Infinity");
    reveal_strlit("-Infinity");
    reveal_strlit("-0");
    if marker_of(a) == marker_of(b) && a != b {
        assert(marker_of(a).len() != marker_of(b).len() || marker_of(a)[0] != marker_of(b)[0]
            || marker_of(a)[1] != marker_of(b)[1]);
    }
}

} // verus!
