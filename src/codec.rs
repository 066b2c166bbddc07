//! The wire codec: native values to wire values and back, with the handle
//! list that carries object references out of band, and the tagged JSON
//! form in which wire values travel.
use vstd::prelude::*;
use crate::error::Error;
use crate::json::{
    entry_json, from_json, from_json_entries, from_json_entry, from_json_list, json_models, member_models, special_of, tagged,
    to_json, to_json_entries, to_json_list, Json, JsonM, Member,
};
use crate::native::{field_models, native_models, Native, NativeField, Value};
use crate::registry::Registry;
use crate::wire::{
    entry_models, lemma_markers_distinct, marker_of, special_from_marker, special_marker, wire_models, Special,
    Wire, WireEntry, WireValue,
};

verus! {

broadcast use vstd::seq_lib::group_seq_properties, vstd::std_specs::vec::group_vec_axioms;

// ---------------------------------------------------------------------------
// What encoding means
// ---------------------------------------------------------------------------

/// Whether a value can be encoded: it holds no raw binary data.
pub open spec fn encodable(v: Value) -> bool
    decreases v,
{
    match v {
        Value::Bytes(_) => false,
        Value::List(vs) => encodable_list(vs),
        Value::Object(fs) => encodable_fields(fs),
        _ => true,
    }
}

pub open spec fn encodable_list(vs: Seq<Value>) -> bool
    decreases vs,
{
    vs.len() == 0 || (encodable_list(vs.drop_last()) && encodable(vs.last()))
}

pub open spec fn encodable_fields(fs: Seq<(Seq<char>, Value)>) -> bool
    decreases fs,
{
    fs.len() == 0 || (encodable_fields(fs.drop_last()) && encodable(fs.last().1))
}

proof fn lemma_encodable_list_elem(vs: Seq<Value>, k: int)
    requires
        encodable_list(vs),
        0 <= k < vs.len(),
    ensures
        encodable(vs[k]),
    decreases vs.len(),
{
    if k < vs.len() - 1 {
        lemma_encodable_list_elem(vs.drop_last(), k);
    }
}

proof fn lemma_encodable_fields_elem(fs: Seq<(Seq<char>, Value)>, k: int)
    requires
        encodable_fields(fs),
        0 <= k < fs.len(),
    ensures
        encodable(fs[k].1),
    decreases fs.len(),
{
    if k < fs.len() - 1 {
        lemma_encodable_fields_elem(fs.drop_last(), k);
    }
}

/// The guids that encoding `v` appends to the handle list, in order.
pub open spec fn refs(v: Value) -> Seq<Seq<char>>
    decreases v,
{
    match v {
        Value::ObjectRef(g) => seq![g],
        Value::List(vs) => refs_list(vs),
        Value::Object(fs) => refs_fields(fs),
        _ => Seq::empty(),
    }
}

pub open spec fn refs_list(vs: Seq<Value>) -> Seq<Seq<char>>
    decreases vs,
{
    if vs.len() == 0 {
        Seq::empty()
    } else {
        refs_list(vs.drop_last()) + refs(vs.last())
    }
}

pub open spec fn refs_fields(fs: Seq<(Seq<char>, Value)>) -> Seq<Seq<char>>
    decreases fs,
{
    if fs.len() == 0 {
        Seq::empty()
    } else {
        refs_fields(fs.drop_last()) + refs(fs.last().1)
    }
}

/// The wire form of `v` when the handle list already holds `base` guids.
pub open spec fn enc(v: Value, base: nat) -> Wire
    decreases v,
{
    match v {
        Value::Bool(b) => Wire::Bool(b),
        Value::Int(n) => Wire::Int(n),
        Value::UInt(n) => Wire::UInt(n),
        Value::Decimal(d) => Wire::Decimal(d),
        Value::Special(s) => Wire::Special(s),
        Value::Str(s) => Wire::Str(s),
        Value::Date(s) => Wire::Date(s),
        Value::ObjectRef(_) => Wire::Handle(base),
        Value::Bytes(_) => Wire::Special(Special::Undefined),
        Value::List(vs) => Wire::Array(enc_list(vs, base)),
        Value::Object(fs) => Wire::Object(enc_fields(fs, base)),
    }
}

pub open spec fn enc_list(vs: Seq<Value>, base: nat) -> Seq<Wire>
    decreases vs,
{
    Seq::new(
        vs.len(),
        |i: int|
            if 0 <= i < vs.len() {
                enc(vs[i], base + refs_list(vs.take(i)).len())
            } else {
                Wire::Bool(false)
            },
    )
}

pub open spec fn enc_fields(fs: Seq<(Seq<char>, Value)>, base: nat) -> Seq<(Seq<char>, Wire)>
    decreases fs,
{
    Seq::new(
        fs.len(),
        |i: int|
            if 0 <= i < fs.len() {
                (fs[i].0, enc(fs[i].1, base + refs_fields(fs.take(i)).len()))
            } else {
                (Seq::empty(), Wire::Bool(false))
            },
    )
}

/// Views of a list of strings.
pub open spec fn string_views(s: Seq<String>) -> Seq<Seq<char>> {
    s.map_values(|x: String| x@)
}

// ---------------------------------------------------------------------------
// The handle list and the builders
// ---------------------------------------------------------------------------

/// Encoding state shared by all levels of one message: the handle list.
#[derive(Debug)]
pub struct Serializer {
    handles: Vec<String>,
}

impl Serializer {
    /// The guids collected so far, in order.
    pub closed spec fn handles_view(&self) -> Seq<Seq<char>> {
        string_views(self.handles@)
    }

    pub fn new() -> (r: Serializer)
        ensures
            r.handles_view() == Seq::<Seq<char>>::empty(),
    {
        let r = Serializer { handles: Vec::new() };
        assert(r.handles_view() =~= Seq::<Seq<char>>::empty());
        r
    }

    /// Appends a guid and returns the handle-index value that stands for it.
    pub fn push_handle(&mut self, guid: String) -> (r: WireValue)
        ensures
            final(self).handles_view() == old(self).handles_view().push(guid@),
            r is Handle && r->Handle_0 as nat == old(self).handles_view().len(),
    {
        let idx = self.handles.len();
        self.handles.push(guid);
        assert(self.handles_view() =~= old(self).handles_view().push(guid@));
        WireValue::Handle(idx)
    }

    /// The handle list, which travels beside the encoded value.
    pub fn handles(self) -> (r: Vec<String>)
        ensures
            string_views(r@) == self.handles_view(),
    {
        self.handles
    }
}

pub fn serialize_bool(v: bool) -> (r: WireValue)
    ensures
        r == WireValue::Bool(v),
{
    WireValue::Bool(v)
}

pub fn serialize_i64(v: i64) -> (r: WireValue)
    ensures
        r == WireValue::Int(v),
{
    WireValue::Int(v)
}

pub fn serialize_u64(v: u64) -> (r: WireValue)
    ensures
        r == WireValue::UInt(v),
{
    WireValue::UInt(v)
}

pub fn serialize_str(v: &str) -> (r: WireValue)
    ensures
        r is Str && r->Str_0@ == v@,
{
    WireValue::Str(v.to_owned())
}

/// An explicit empty value: the `null` marker.
pub fn serialize_none() -> (r: WireValue)
    ensures
        r == WireValue::Special(Special::Null),
{
    WireValue::Special(Special::Null)
}

/// A present-but-empty value: the `undefined` marker, distinct from `null`.
pub fn serialize_unit() -> (r: WireValue)
    ensures
        r == WireValue::Special(Special::Undefined),
{
    WireValue::Special(Special::Undefined)
}

/// Raw binary payloads are refused before anything is sent.
pub fn serialize_bytes(v: &[u8]) -> (r: Result<WireValue, Error>)
    ensures
        r is Err && r->Err_0 == Error::NotSupported,
{
    Err(Error::NotSupported)
}

/// A variant without data is sent as its name.
pub fn serialize_unit_variant(variant: &str) -> (r: WireValue)
    ensures
        r is Str && r->Str_0@ == variant@,
{
    serialize_str(variant)
}

/// A single-entry ordered object `{variant: value}`.
pub fn serialize_newtype_variant(variant: &str, value: WireValue) -> (r: WireValue)
    ensures
        r is Object && r->Object_0@.len() == 1 && r->Object_0@[0].key@ == variant@
            && r->Object_0@[0].value == value,
{
    let mut entries: Vec<WireEntry> = Vec::new();
    entries.push(WireEntry { key: variant.to_owned(), value });
    WireValue::Object(entries)
}

/// Pairs keys with values, in order, into an ordered object.
pub fn convert_kv(keys: Vec<String>, values: Vec<WireValue>) -> (r: WireValue)
    requires
        keys@.len() == values@.len(),
    ensures
        r is Object,
        r->Object_0@.len() == keys@.len(),
        forall|j: int|
            0 <= j < keys@.len() ==> (#[trigger] r->Object_0@[j]).key == keys@[j] && r->Object_0@[j].value
                == values@[j],
{
    let ghost ks = keys@;
    let ghost vs = values@;
    let mut keys = keys;
    let mut values = values;
    let mut out: Vec<WireEntry> = Vec::new();
    while keys.len() > 0
        invariant
            keys@.len() == values@.len(),
            keys@.len() <= ks.len(),
            keys@ == ks.take(keys@.len() as int),
            values@ == vs.take(keys@.len() as int),
            ks.len() == vs.len(),
            out@.len() + keys@.len() == ks.len(),
            forall|j: int|
                0 <= j < out@.len() ==> (#[trigger] out@[j]).key == ks[keys@.len() + j] && out@[j].value
                    == vs[keys@.len() + j],
        decreases keys@.len(),
    {
        let k = keys.pop().unwrap();
        let v = values.pop().unwrap();
        out.insert(0, WireEntry { key: k, value: v });
        assert(keys@ =~= ks.take(keys@.len() as int));
        assert(values@ =~= vs.take(keys@.len() as int));
    }
    WireValue::Object(out)
}

/// Accumulates the elements of a sequence, a tuple or a tuple struct.
#[derive(Debug)]
pub struct SeqBuilder {
    pub values: Vec<WireValue>,
}

impl SeqBuilder {
    pub fn new() -> (r: SeqBuilder)
        ensures
            r.values@.len() == 0,
    {
        SeqBuilder { values: Vec::new() }
    }

    pub fn serialize_element(&mut self, value: WireValue)
        ensures
            final(self).values@ == old(self).values@.push(value),
    {
        self.values.push(value);
    }

    /// The whole sequence, once every element is known.
    pub fn end(self) -> (r: WireValue)
        ensures
            r == WireValue::Array(self.values),
    {
        WireValue::Array(self.values)
    }
}

/// Accumulates the fields of a tuple variant.
#[derive(Debug)]
pub struct TupleVariant {
    pub variant: String,
    pub values: Vec<WireValue>,
}

impl TupleVariant {
    pub fn new(variant: &str) -> (r: TupleVariant)
        ensures
            r.variant@ == variant@,
            r.values@.len() == 0,
    {
        TupleVariant { variant: variant.to_owned(), values: Vec::new() }
    }

    pub fn serialize_field(&mut self, value: WireValue)
        ensures
            final(self).values@ == old(self).values@.push(value),
            final(self).variant == old(self).variant,
    {
        self.values.push(value);
    }

    /// `{variant: [fields...]}`
    pub fn end(self) -> (r: WireValue)
        ensures
            r is Object && r->Object_0@.len() == 1 && r->Object_0@[0].key == self.variant
                && r->Object_0@[0].value == WireValue::Array(self.values),
    {
        let mut entries: Vec<WireEntry> = Vec::new();
        entries.push(WireEntry { key: self.variant, value: WireValue::Array(self.values) });
        WireValue::Object(entries)
    }
}

/// Accumulates the fields of a struct variant.
#[derive(Debug)]
pub struct StructVariant {
    pub variant: String,
    pub entries: Vec<WireEntry>,
}

impl StructVariant {
    pub fn new(variant: &str) -> (r: StructVariant)
        ensures
            r.variant@ == variant@,
            r.entries@.len() == 0,
    {
        StructVariant { variant: variant.to_owned(), entries: Vec::new() }
    }

    pub fn serialize_field(&mut self, key: &str, value: WireValue)
        ensures
            final(self).variant == old(self).variant,
            final(self).entries@.len() == old(self).entries@.len() + 1,
            final(self).entries@.drop_last() == old(self).entries@,
            final(self).entries@.last().key@ == key@,
            final(self).entries@.last().value == value,
    {
        self.entries.push(WireEntry { key: key.to_owned(), value });
        assert(self.entries@.drop_last() =~= old(self).entries@);
    }

    /// `{variant: {fields...}}`
    pub fn end(self) -> (r: WireValue)
        ensures
            r is Object && r->Object_0@.len() == 1 && r->Object_0@[0].key == self.variant
                && r->Object_0@[0].value == WireValue::Object(self.entries),
    {
        let mut outer: Vec<WireEntry> = Vec::new();
        outer.push(WireEntry { key: self.variant, value: WireValue::Object(self.entries) });
        WireValue::Object(outer)
    }
}

/// How a struct is sent, decided by its reserved name.
#[derive(Clone, Copy, Debug, PartialEq, Eq, Structural)]
pub enum StructKind {
    /// Fields in order, as an ordered object.
    Plain,
    /// A reference to a remote object: its `guid` field goes to the handle list.
    Handle,
    /// A timestamp: its `d` field is sent as a date payload.
    Date,
}

/// Struct names by which object references identify themselves.
pub const HANDLE_STRUCT: &'static str = "4a9c3811-6f00-49e5-8a81-939f932d9061";
pub const ELEMENT_HANDLE_STRUCT: &'static str = "fff9ae7f-9070-480f-9a8a-3d4b66923f7d";
/// Struct name by which timestamps identify themselves.
pub const DATE_STRUCT: &'static str = "e7ee19d3-64cb-4286-8762-6dd8ab78eb89";

pub open spec fn struct_kind_of(name: Seq<char>) -> StructKind {
    if name == HANDLE_STRUCT@ || name == ELEMENT_HANDLE_STRUCT@ {
        StructKind::Handle
    } else if name == DATE_STRUCT@ {
        StructKind::Date
    } else {
        StructKind::Plain
    }
}

pub fn struct_kind(name: &str) -> (r: StructKind)
    ensures
        r == struct_kind_of(name@),
{
    let n = name.to_owned();
    if n == HANDLE_STRUCT.to_owned() || n == ELEMENT_HANDLE_STRUCT.to_owned() {
        StructKind::Handle
    } else if n == DATE_STRUCT.to_owned() {
        StructKind::Date
    } else {
        StructKind::Plain
    }
}

/// Accumulates the fields of a struct.
#[derive(Debug)]
pub struct ObjectS {
    pub kind: StructKind,
    pub entries: Vec<WireEntry>,
    pub guid: Option<String>,
    pub d: Option<String>,
}

impl ObjectS {
    pub fn new(name: &str) -> (r: ObjectS)
        ensures
            r.kind == struct_kind_of(name@),
            r.entries@.len() == 0,
            r.guid is None,
            r.d is None,
    {
        ObjectS { kind: struct_kind(name), entries: Vec::new(), guid: None, d: None }
    }

    /// Takes one field. The `guid` of an object reference and the `d` of a
    /// timestamp are held apart and must be strings; any other field joins
    /// the ordered entries.
    pub fn serialize_field(&mut self, key: &str, value: WireValue) -> (r: Result<(), Error>)
        ensures
            final(self).kind == old(self).kind,
            old(self).kind == StructKind::Handle && key@ == "guid"@ ==> match value {
                WireValue::Str(g) => r is Ok && final(self).guid == Some(g) && final(self).entries
                    == old(self).entries && final(self).d == old(self).d,
                _ => r is Err && r->Err_0 == Error::JsHandle && *final(self) == *old(self),
            },
            old(self).kind == StructKind::Date && key@ == "d"@ ==> match value {
                WireValue::Str(d) => r is Ok && final(self).d == Some(d) && final(self).entries
                    == old(self).entries && final(self).guid == old(self).guid,
                _ => r is Err && r->Err_0 == Error::DateTime && *final(self) == *old(self),
            },
            !(old(self).kind == StructKind::Handle && key@ == "guid"@) && !(old(self).kind
                == StructKind::Date && key@ == "d"@) ==> {
                &&& r is Ok
                &&& final(self).entries@.len() == old(self).entries@.len() + 1
                &&& final(self).entries@.drop_last() == old(self).entries@
                &&& final(self).entries@.last().key@ == key@
                &&& final(self).entries@.last().value == value
                &&& final(self).guid == old(self).guid
                &&& final(self).d == old(self).d
            },
    {
        let k = key.to_owned();
        if self.kind == StructKind::Handle && k == "guid".to_owned() {
            match value {
                WireValue::Str(g) => {
                    self.guid = Some(g);
                    return Ok(());
                },
                _ => return Err(Error::JsHandle),
            }
        }
        if self.kind == StructKind::Date && k == "d".to_owned() {
            match value {
                WireValue::Str(d) => {
                    self.d = Some(d);
                    return Ok(());
                },
                _ => return Err(Error::DateTime),
            }
        }
        self.entries.push(WireEntry { key: k, value });
        assert(self.entries@.drop_last() =~= old(self).entries@);
        Ok(())
    }

    /// The finished struct: a handle index (its guid appended to the handle
    /// list), a date payload, or the ordered object of its fields.
    pub fn end(self, ser: &mut Serializer) -> (r: Result<WireValue, Error>)
        ensures
            self.kind == StructKind::Handle ==> match self.guid {
                Some(g) => r is Ok && r->Ok_0 is Handle && r->Ok_0->Handle_0 as nat == old(ser).handles_view().len()
                    && final(ser).handles_view() == old(ser).handles_view().push(g@),
                None => r is Err && r->Err_0 == Error::JsHandle && final(ser).handles_view()
                    == old(ser).handles_view(),
            },
            self.kind == StructKind::Date ==> final(ser).handles_view() == old(ser).handles_view()
                && match self.d {
                Some(d) => r == Ok::<WireValue, Error>(WireValue::Date(d)),
                None => r is Err && r->Err_0 == Error::DateTime,
            },
            self.kind == StructKind::Plain ==> final(ser).handles_view() == old(ser).handles_view()
                && r == Ok::<WireValue, Error>(WireValue::Object(self.entries)),
    {
        match self.kind {
            StructKind::Handle => match self.guid {
                Some(g) => Ok(ser.push_handle(g)),
                None => Err(Error::JsHandle),
            },
            StructKind::Date => match self.d {
                Some(d) => Ok(WireValue::Date(d)),
                None => Err(Error::DateTime),
            },
            StructKind::Plain => Ok(WireValue::Object(self.entries)),
        }
    }
}

/// Accumulates a map whose keys and values arrive in turns.
#[derive(Debug)]
pub struct ObjectM {
    pub keys: Vec<String>,
    pub values: Vec<WireValue>,
    /// A key has arrived and waits for its value.
    pub turn: bool,
}

impl ObjectM {
    /// Every key but a waiting one has its value.
    pub open spec fn wf(&self) -> bool {
        self.keys@.len() == self.values@.len() + if self.turn { 1int } else { 0int }
    }

    pub fn new() -> (r: ObjectM)
        ensures
            r.wf(),
            r.keys@.len() == 0,
            r.values@.len() == 0,
            !r.turn,
    {
        ObjectM { keys: Vec::new(), values: Vec::new(), turn: false }
    }

    /// Takes a key, which must be a string and must not follow another key.
    pub fn serialize_key(&mut self, key: WireValue) -> (r: Result<(), Error>)
        requires
            old(self).wf(),
        ensures
            final(self).wf(),
            old(self).turn ==> r is Err && r->Err_0 == Error::OddMap && *final(self) == *old(self),
            !old(self).turn && !(key is Str) ==> r is Err && r->Err_0 == Error::InvalidKey && *final(self)
                == *old(self),
            !old(self).turn && key is Str ==> r is Ok && final(self).turn && final(self).keys@
                == old(self).keys@.push(key->Str_0) && final(self).values == old(self).values,
    {
        if self.turn {
            return Err(Error::OddMap);
        }
        match key {
            WireValue::Str(k) => {
                self.keys.push(k);
                self.turn = true;
                Ok(())
            },
            _ => Err(Error::InvalidKey),
        }
    }

    /// Takes the value of the waiting key.
    pub fn serialize_value(&mut self, value: WireValue) -> (r: Result<(), Error>)
        requires
            old(self).wf(),
        ensures
            final(self).wf(),
            !old(self).turn ==> r is Err && r->Err_0 == Error::OddMap && *final(self) == *old(self),
            old(self).turn ==> r is Ok && !final(self).turn && final(self).values@ == old(self).values@.push(
                value,
            ) && final(self).keys == old(self).keys,
    {
        if !self.turn {
            return Err(Error::OddMap);
        }
        self.values.push(value);
        self.turn = false;
        Ok(())
    }

    /// The ordered object of the pairs; a trailing key without its value
    /// fails with `OddMap`.
    pub fn end(self) -> (r: Result<WireValue, Error>)
        requires
            self.wf(),
        ensures
            self.turn ==> r is Err && r->Err_0 == Error::OddMap,
            !self.turn ==> r is Ok && r->Ok_0 is Object && r->Ok_0->Object_0@.len() == self.keys@.len()
                && forall|j: int|
                0 <= j < self.keys@.len() ==> (#[trigger] r->Ok_0->Object_0@[j]).key == self.keys@[j]
                    && r->Ok_0->Object_0@[j].value == self.values@[j],
    {
        if self.turn {
            return Err(Error::OddMap);
        }
        Ok(convert_kv(self.keys, self.values))
    }
}

proof fn lemma_refs_list_step(ms: Seq<Value>, i: int)
    requires
        0 <= i < ms.len(),
    ensures
        refs_list(ms.take(i + 1)) == refs_list(ms.take(i)) + refs(ms[i]),
{
    assert(ms.take(i + 1).drop_last() =~= ms.take(i));
}

proof fn lemma_refs_fields_step(fs: Seq<(Seq<char>, Value)>, i: int)
    requires
        0 <= i < fs.len(),
    ensures
        refs_fields(fs.take(i + 1)) == refs_fields(fs.take(i)) + refs(fs[i].1),
{
    assert(fs.take(i + 1).drop_last() =~= fs.take(i));
}

/// Encodes `v`, appending the guids of the object references it holds to
/// the handle list. Fails with `NotSupported` exactly when `v` holds raw
/// binary data.
pub fn encode_value(v: &Native, ser: &mut Serializer) -> (r: Result<WireValue, Error>)
    ensures
        r is Ok <==> encodable(v.model()),
        r is Err ==> r->Err_0 == Error::NotSupported,
        r is Ok ==> r->Ok_0.model() == enc(v.model(), old(ser).handles_view().len())
            && final(ser).handles_view() == old(ser).handles_view() + refs(v.model()),
    decreases v,
{
    match v {
        Native::Bool(b) => Ok(serialize_bool(*b)),
        Native::Int(n) => Ok(serialize_i64(*n)),
        Native::UInt(n) => Ok(serialize_u64(*n)),
        Native::Decimal(d) => Ok(WireValue::Decimal(d.clone())),
        Native::Special(s) => Ok(WireValue::Special(*s)),
        Native::Str(s) => Ok(serialize_str(s.as_str())),
        Native::Date(d) => Ok(WireValue::Date(d.clone())),
        Native::ObjectRef(g) => {
            let w = ser.push_handle(g.clone());
            proof {
                assert(old(ser).handles_view().push(g@) =~= old(ser).handles_view() + seq![g@]);
            }
            Ok(w)
        },
        Native::Bytes(b) => serialize_bytes(b.as_slice()),
        Native::List(vs) => {
            let ghost ms = native_models(vs@);
            let ghost base = old(ser).handles_view().len();
            let mut b = SeqBuilder::new();
            let mut i: usize = 0;
            proof {
                assert(ser.handles_view() =~= old(ser).handles_view() + refs_list(ms.take(0)));
            }
            while i < vs.len()
                invariant
                    i <= vs@.len(),
                    *v == Native::List(*vs),
                    ms == native_models(vs@),
                    base == old(ser).handles_view().len(),
                    b.values@.len() == i,
                    encodable_list(ms.take(i as int)),
                    forall|j: int|
                        0 <= j < i ==> (#[trigger] b.values@[j]).model() == enc(
                            ms[j],
                            base + refs_list(ms.take(j)).len(),
                        ),
                    ser.handles_view() == old(ser).handles_view() + refs_list(ms.take(i as int)),
                decreases vs@.len() - i,
            {
                proof {
                    assert(decreases_to!(vs => vs[i as int]));
                    assert(ms[i as int] == vs@[i as int].model());
                }
                match encode_value(&vs[i], ser) {
                    Ok(w) => {
                        b.serialize_element(w);
                    },
                    Err(e) => {
                        proof {
                            assert(v.model() == Value::List(ms));
                            if encodable_list(ms) {
                                lemma_encodable_list_elem(ms, i as int);
                            }
                        }
                        return Err(e);
                    },
                }
                proof {
                    lemma_refs_list_step(ms, i as int);
                    assert(ms.take(i + 1).drop_last() =~= ms.take(i as int));
                    assert(ser.handles_view() =~= old(ser).handles_view() + refs_list(ms.take(i + 1)));
                }
                i = i + 1;
            }
            proof {
                assert(ms.take(i as int) =~= ms);
                assert(wire_models(b.values@) =~= enc_list(ms, base));
                assert(v.model() == Value::List(ms));
                assert(refs(Value::List(ms)) == refs_list(ms));
            }
            Ok(b.end())
        },
        Native::Object(fs) => {
            let ghost ms = field_models(fs@);
            let ghost base = old(ser).handles_view().len();
            let mut entries: Vec<WireEntry> = Vec::new();
            let mut i: usize = 0;
            proof {
                assert(ser.handles_view() =~= old(ser).handles_view() + refs_fields(ms.take(0)));
            }
            while i < fs.len()
                invariant
                    i <= fs@.len(),
                    *v == Native::Object(*fs),
                    ms == field_models(fs@),
                    base == old(ser).handles_view().len(),
                    entries@.len() == i,
                    encodable_fields(ms.take(i as int)),
                    forall|j: int|
                        0 <= j < i ==> (#[trigger] entries@[j]).key@ == ms[j].0 && entries@[j].value.model()
                            == enc(ms[j].1, base + refs_fields(ms.take(j)).len()),
                    ser.handles_view() == old(ser).handles_view() + refs_fields(ms.take(i as int)),
                decreases fs@.len() - i,
            {
                proof {
                    assert(decreases_to!(fs => fs[i as int]));
                    assert(ms[i as int].1 == fs@[i as int].value.model());
                }
                match encode_value(&fs[i].value, ser) {
                    Ok(w) => {
                        entries.push(WireEntry { key: fs[i].key.clone(), value: w });
                    },
                    Err(e) => {
                        proof {
                            assert(v.model() == Value::Object(ms));
                            if encodable_fields(ms) {
                                lemma_encodable_fields_elem(ms, i as int);
                            }
                        }
                        return Err(e);
                    },
                }
                proof {
                    lemma_refs_fields_step(ms, i as int);
                    assert(ms.take(i + 1).drop_last() =~= ms.take(i as int));
                    assert(ser.handles_view() =~= old(ser).handles_view() + refs_fields(ms.take(i + 1)));
                }
                i = i + 1;
            }
            proof {
                assert(ms.take(i as int) =~= ms);
                assert(entry_models(entries@) =~= enc_fields(ms, base));
                assert(v.model() == Value::Object(ms));
                assert(refs(Value::Object(ms)) == refs_fields(ms));
            }
            Ok(WireValue::Object(entries))
        },
    }
}

/// An encoded message: the value and the handle list beside it.
#[derive(Debug)]
pub struct Encoded {
    pub value: WireValue,
    pub handles: Vec<String>,
}

/// Encodes a whole message, starting from an empty handle list.
pub fn to_value(v: &Native) -> (r: Result<Encoded, Error>)
    ensures
        r is Ok <==> encodable(v.model()),
        r is Err ==> r->Err_0 == Error::NotSupported,
        r is Ok ==> r->Ok_0.value.model() == enc(v.model(), 0) && string_views(r->Ok_0.handles@) == refs(
            v.model(),
        ),
{
    let mut ser = Serializer::new();
    match encode_value(v, &mut ser) {
        Ok(value) => {
            proof {
                assert(ser.handles_view() =~= refs(v.model()));
            }
            Ok(Encoded { value, handles: ser.handles() })
        },
        Err(e) => Err(e),
    }
}

// ---------------------------------------------------------------------------
// Decoding
// ---------------------------------------------------------------------------

/// The native value that `w` decodes to against the handle list `hs`, when
/// `live` is the set of live guids; the first failure from the left wins.
pub open spec fn dec(w: Wire, hs: Seq<Seq<char>>, live: Set<Seq<char>>) -> Result<Value, Error>
    decreases w,
{
    match w {
        Wire::Bool(b) => Ok(Value::Bool(b)),
        Wire::Int(n) => Ok(Value::Int(n)),
        Wire::UInt(n) => Ok(Value::UInt(n)),
        Wire::Decimal(d) => Ok(Value::Decimal(d)),
        Wire::Special(s) => Ok(Value::Special(s)),
        Wire::Str(s) => Ok(Value::Str(s)),
        Wire::Date(s) => Ok(Value::Date(s)),
        Wire::Handle(i) => if i < hs.len() {
            if live.contains(hs[i as int]) {
                Ok(Value::ObjectRef(hs[i as int]))
            } else {
                Err(Error::ObjectNotFound)
            }
        } else {
            Err(Error::Malformed)
        },
        Wire::Array(ws) => match dec_list(ws, hs, live) {
            Ok(vs) => Ok(Value::List(vs)),
            Err(e) => Err(e),
        },
        Wire::Object(es) => match dec_entries(es, hs, live) {
            Ok(fs) => Ok(Value::Object(fs)),
            Err(e) => Err(e),
        },
    }
}

pub open spec fn dec_list(ws: Seq<Wire>, hs: Seq<Seq<char>>, live: Set<Seq<char>>) -> Result<Seq<Value>, Error>
    decreases ws,
{
    if ws.len() == 0 {
        Ok(Seq::empty())
    } else {
        match dec_list(ws.drop_last(), hs, live) {
            Err(e) => Err(e),
            Ok(vs) => match dec(ws.last(), hs, live) {
                Ok(v) => Ok(vs.push(v)),
                Err(e) => Err(e),
            },
        }
    }
}

pub open spec fn dec_entries(es: Seq<(Seq<char>, Wire)>, hs: Seq<Seq<char>>, live: Set<Seq<char>>) -> Result<
    Seq<(Seq<char>, Value)>,
    Error,
>
    decreases es,
{
    if es.len() == 0 {
        Ok(Seq::empty())
    } else {
        match dec_entries(es.drop_last(), hs, live) {
            Err(e) => Err(e),
            Ok(fs) => match dec(es.last().1, hs, live) {
                Ok(v) => Ok(fs.push((es.last().0, v))),
                Err(e) => Err(e),
            },
        }
    }
}

proof fn lemma_dec_list_err(ws: Seq<Wire>, k: int, hs: Seq<Seq<char>>, live: Set<Seq<char>>)
    requires
        0 <= k <= ws.len(),
        dec_list(ws.take(k), hs, live) is Err,
    ensures
        dec_list(ws, hs, live) == dec_list(ws.take(k), hs, live),
    decreases ws.len() - k,
{
    if k == ws.len() {
        assert(ws.take(k) =~= ws);
    } else {
        assert(ws.take(k + 1).drop_last() =~= ws.take(k));
        lemma_dec_list_err(ws, k + 1, hs, live);
    }
}

proof fn lemma_dec_entries_err(es: Seq<(Seq<char>, Wire)>, k: int, hs: Seq<Seq<char>>, live: Set<Seq<char>>)
    requires
        0 <= k <= es.len(),
        dec_entries(es.take(k), hs, live) is Err,
    ensures
        dec_entries(es, hs, live) == dec_entries(es.take(k), hs, live),
    decreases es.len() - k,
{
    if k == es.len() {
        assert(es.take(k) =~= es);
    } else {
        assert(es.take(k + 1).drop_last() =~= es.take(k));
        lemma_dec_entries_err(es, k + 1, hs, live);
    }
}

/// Decodes a wire value against its message's handle list, re-resolving
/// each handle through the registry: a handle whose guid is no longer live
/// fails with `ObjectNotFound`, one past the end of the list with
/// `Malformed`.
pub fn decode(w: &WireValue, handles: &Vec<String>, reg: &Registry) -> (r: Result<Native, Error>)
    requires
        reg.wf(),
    ensures
        match dec(w.model(), string_views(handles@), reg.live()) {
            Ok(m) => r is Ok && r->Ok_0.model() == m,
            Err(e) => r == Err::<Native, Error>(e),
        },
    decreases w,
{
    let ghost hs = string_views(handles@);
    match w {
        WireValue::Bool(b) => Ok(Native::Bool(*b)),
        WireValue::Int(n) => Ok(Native::Int(*n)),
        WireValue::UInt(n) => Ok(Native::UInt(*n)),
        WireValue::Decimal(d) => Ok(Native::Decimal(d.clone())),
        WireValue::Special(s) => Ok(Native::Special(*s)),
        WireValue::Str(s) => Ok(Native::Str(s.clone())),
        WireValue::Date(d) => Ok(Native::Date(d.clone())),
        WireValue::Handle(i) => {
            if *i >= handles.len() {
                return Err(Error::Malformed);
            }
            let g = &handles[*i];
            if reg.contains(g.as_str()) {
                Ok(Native::ObjectRef(g.clone()))
            } else {
                Err(Error::ObjectNotFound)
            }
        },
        WireValue::Array(ws) => {
            let ghost ms = wire_models(ws@);
            let mut out: Vec<Native> = Vec::new();
            let mut i: usize = 0;
            proof {
                assert(native_models(out@) =~= Seq::<Value>::empty());
                assert(ms.take(0) =~= Seq::<Wire>::empty());
            }
            while i < ws.len()
                invariant
                    i <= ws@.len(),
                    *w == WireValue::Array(*ws),
                    ms == wire_models(ws@),
                    hs == string_views(handles@),
                    reg.wf(),
                    dec_list(ms.take(i as int), hs, reg.live()) == Ok::<Seq<Value>, Error>(native_models(out@)),
                decreases ws@.len() - i,
            {
                proof {
                    assert(decreases_to!(ws => ws[i as int]));
                    assert(ms.take(i + 1).drop_last() =~= ms.take(i as int));
                }
                match decode(&ws[i], handles, reg) {
                    Ok(n) => {
                        let ghost before = out@;
                        out.push(n);
                        proof {
                            assert(native_models(out@) =~= native_models(before).push(n.model()));
                        }
                    },
                    Err(e) => {
                        proof {
                            lemma_dec_list_err(ms, i + 1, hs, reg.live());
                        }
                        return Err(e);
                    },
                }
                i = i + 1;
            }
            proof {
                assert(ms.take(i as int) =~= ms);
            }
            Ok(Native::List(out))
        },
        WireValue::Object(es) => {
            let ghost ms = entry_models(es@);
            let mut out: Vec<NativeField> = Vec::new();
            let mut i: usize = 0;
            proof {
                assert(field_models(out@) =~= Seq::<(Seq<char>, Value)>::empty());
                assert(ms.take(0) =~= Seq::<(Seq<char>, Wire)>::empty());
            }
            while i < es.len()
                invariant
                    i <= es@.len(),
                    *w == WireValue::Object(*es),
                    ms == entry_models(es@),
                    hs == string_views(handles@),
                    reg.wf(),
                    dec_entries(ms.take(i as int), hs, reg.live()) == Ok::<Seq<(Seq<char>, Value)>, Error>(
                        field_models(out@),
                    ),
                decreases es@.len() - i,
            {
                proof {
                    assert(decreases_to!(es => es[i as int]));
                    assert(ms.take(i + 1).drop_last() =~= ms.take(i as int));
                }
                match decode(&es[i].value, handles, reg) {
                    Ok(n) => {
                        let ghost before = out@;
                        out.push(NativeField { key: es[i].key.clone(), value: n });
                        proof {
                            assert(field_models(out@) =~= field_models(before).push((es@[i as int].key@, n.model())));
                        }
                    },
                    Err(e) => {
                        proof {
                            lemma_dec_entries_err(ms, i + 1, hs, reg.live());
                        }
                        return Err(e);
                    },
                }
                i = i + 1;
            }
            proof {
                assert(ms.take(i as int) =~= ms);
            }
            Ok(Native::Object(out))
        },
    }
}

// ---------------------------------------------------------------------------
// The round trip
// ---------------------------------------------------------------------------

/// Decoding what encoding produced gives the value back: for every value
/// without raw binary data, encoded when the handle list held `base` guids,
/// decoding against a handle list that holds its references from `base` on,
/// all of them live, yields the same value. The float markers, `null` and
/// `undefined` are distinct scalars and come back as themselves.
pub proof fn lemma_round_trip(v: Value, hs: Seq<Seq<char>>, base: nat, live: Set<Seq<char>>)
    requires
        encodable(v),
        base + refs(v).len() <= hs.len(),
        hs.subrange(base as int, base + refs(v).len() as int) == refs(v),
        forall|k: int| 0 <= k < refs(v).len() ==> live.contains(#[trigger] refs(v)[k]),
    ensures
        dec(enc(v, base), hs, live) == Ok::<Value, Error>(v),
    decreases v,
{
    match v {
        Value::ObjectRef(g) => {
            assert(refs(v)[0] == g);
            assert(hs[base as int] == hs.subrange(base as int, base + 1int)[0]);
        },
        Value::List(vs) => {
            lemma_round_trip_list(vs, hs, base, live);
        },
        Value::Object(fs) => {
            lemma_round_trip_fields(fs, hs, base, live);
        },
        _ => {},
    }
}

proof fn lemma_round_trip_list(vs: Seq<Value>, hs: Seq<Seq<char>>, base: nat, live: Set<Seq<char>>)
    requires
        encodable_list(vs),
        base + refs_list(vs).len() <= hs.len(),
        hs.subrange(base as int, base + refs_list(vs).len() as int) == refs_list(vs),
        forall|k: int| 0 <= k < refs_list(vs).len() ==> live.contains(#[trigger] refs_list(vs)[k]),
    ensures
        dec_list(enc_list(vs, base), hs, live) == Ok::<Seq<Value>, Error>(vs),
    decreases vs,
{
    if vs.len() == 0 {
        assert(enc_list(vs, base) =~= Seq::<Wire>::empty());
        assert(vs =~= Seq::<Value>::empty());
    } else {
        let init = vs.drop_last();
        let x = vs.last();
        let a = refs_list(init);
        let b = refs(x);
        assert(refs_list(vs) == a + b);
        assert(hs.subrange(base as int, base + a.len() as int) =~= a) by {
            assert forall|k: int| 0 <= k < a.len() implies hs.subrange(base as int, base + a.len() as int)[k] == a[k] by {
                assert(hs.subrange(base as int, base + refs_list(vs).len() as int)[k] == (a + b)[k]);
            }
        }
        assert forall|k: int| 0 <= k < a.len() implies live.contains(#[trigger] a[k]) by {
            assert((a + b)[k] == a[k]);
            assert(live.contains(refs_list(vs)[k]));
        }
        let base2 = base + a.len();
        assert(hs.subrange(base2 as int, base2 + b.len() as int) =~= b) by {
            assert forall|k: int| 0 <= k < b.len() implies hs.subrange(base2 as int, base2 + b.len() as int)[k] == b[k] by {
                assert(hs.subrange(base as int, base + refs_list(vs).len() as int)[a.len() + k] == (a + b)[a.len() + k]);
            }
        }
        assert forall|k: int| 0 <= k < b.len() implies live.contains(#[trigger] b[k]) by {
            assert((a + b)[a.len() + k] == b[k]);
            assert(live.contains(refs_list(vs)[a.len() + k]));
        }
        lemma_round_trip_list(init, hs, base, live);
        lemma_round_trip(x, hs, base2, live);
        let ws = enc_list(vs, base);
        assert forall|i: int| 0 <= i < init.len() implies ws.drop_last()[i] == enc_list(init, base)[i] by {
            assert(init.take(i) =~= vs.take(i));
        }
        assert(ws.drop_last() =~= enc_list(init, base));
        assert(vs.take(vs.len() - 1) =~= init);
        assert(ws.last() == enc(x, base2));
        assert(init.push(x) =~= vs);
    }
}

proof fn lemma_round_trip_fields(fs: Seq<(Seq<char>, Value)>, hs: Seq<Seq<char>>, base: nat, live: Set<Seq<char>>)
    requires
        encodable_fields(fs),
        base + refs_fields(fs).len() <= hs.len(),
        hs.subrange(base as int, base + refs_fields(fs).len() as int) == refs_fields(fs),
        forall|k: int| 0 <= k < refs_fields(fs).len() ==> live.contains(#[trigger] refs_fields(fs)[k]),
    ensures
        dec_entries(enc_fields(fs, base), hs, live) == Ok::<Seq<(Seq<char>, Value)>, Error>(fs),
    decreases fs,
{
    if fs.len() == 0 {
        assert(enc_fields(fs, base) =~= Seq::<(Seq<char>, Wire)>::empty());
        assert(fs =~= Seq::<(Seq<char>, Value)>::empty());
    } else {
        let init = fs.drop_last();
        let x = fs.last();
        let a = refs_fields(init);
        let b = refs(x.1);
        assert(refs_fields(fs) == a + b);
        assert(hs.subrange(base as int, base + a.len() as int) =~= a) by {
            assert forall|k: int| 0 <= k < a.len() implies hs.subrange(base as int, base + a.len() as int)[k] == a[k] by {
                assert(hs.subrange(base as int, base + refs_fields(fs).len() as int)[k] == (a + b)[k]);
            }
        }
        assert forall|k: int| 0 <= k < a.len() implies live.contains(#[trigger] a[k]) by {
            assert((a + b)[k] == a[k]);
            assert(live.contains(refs_fields(fs)[k]));
        }
        let base2 = base + a.len();
        assert(hs.subrange(base2 as int, base2 + b.len() as int) =~= b) by {
            assert forall|k: int| 0 <= k < b.len() implies hs.subrange(base2 as int, base2 + b.len() as int)[k] == b[k] by {
                assert(hs.subrange(base as int, base + refs_fields(fs).len() as int)[a.len() + k] == (a + b)[a.len() + k]);
            }
        }
        assert forall|k: int| 0 <= k < b.len() implies live.contains(#[trigger] b[k]) by {
            assert((a + b)[a.len() + k] == b[k]);
            assert(live.contains(refs_fields(fs)[a.len() + k]));
        }
        lemma_round_trip_fields(init, hs, base, live);
        lemma_round_trip(x.1, hs, base2, live);
        let ws = enc_fields(fs, base);
        assert forall|i: int| 0 <= i < init.len() implies ws.drop_last()[i] == enc_fields(init, base)[i] by {
            assert(init.take(i) =~= fs.take(i));
        }
        assert(ws.drop_last() =~= enc_fields(init, base));
        assert(fs.take(fs.len() - 1) =~= init);
        assert(ws.last() == (x.0, enc(x.1, base2)));
        assert(init.push(x) =~= fs);
    }
}

/// A whole message decodes to the value it was encoded from, as long as
/// every object it references is still live.
pub proof fn lemma_message_round_trip(v: Value, live: Set<Seq<char>>)
    requires
        encodable(v),
        forall|k: int| 0 <= k < refs(v).len() ==> live.contains(#[trigger] refs(v)[k]),
    ensures
        dec(enc(v, 0), refs(v), live) == Ok::<Value, Error>(v),
{
    assert(refs(v).subrange(0, refs(v).len() as int) =~= refs(v));
    lemma_round_trip(v, refs(v), 0, live);
}

// ---------------------------------------------------------------------------
// The tagged JSON form
// ---------------------------------------------------------------------------

proof fn lemma_reveal_tags()
    ensures
        "b"@.len() == 1 && "b"@[0] == 'b',
        "n"@.len() == 1 && "n"@[0] == 'n',
        "v"@.len() == 1 && "v"@[0] == 'v',
        "s"@.len() == 1 && "s"@[0] == 's',
        "d"@.len() == 1 && "d"@[0] == 'd',
        "h"@.len() == 1 && "h"@[0] == 'h',
        "a"@.len() == 1 && "a"@[0] == 'a',
        "o"@.len() == 1 && "o"@[0] == 'o',
        "k"@.len() == 1 && "k"@[0] == 'k',
{
    reveal_strlit("b");
    reveal_strlit("n");
    reveal_strlit("v");
    reveal_strlit("s");
    reveal_strlit("d");
    reveal_strlit("h");
    reveal_strlit("a");
    reveal_strlit("o");
    reveal_strlit("k");
}

proof fn lemma_special_of_marker(s: Special)
    ensures
        special_of(marker_of(s)) == Some(s),
{
    lemma_markers_distinct(s, Special::Null);
    lemma_markers_distinct(s, Special::Undefined);
    lemma_markers_distinct(s, Special::NaN);
    lemma_markers_distinct(s, Special::Infinity);
    lemma_markers_distinct(s, Special::NegInfinity);
    lemma_markers_distinct(s, Special::NegZero);
}

fn tag(t: &str, j: Json) -> (r: Json)
    ensures
        r.model() == tagged(t@, j.model()),
{
    let mut ms: Vec<Member> = Vec::new();
    let ghost jm = j.model();
    ms.push(Member { key: t.to_owned(), value: j });
    assert(member_models(ms@) =~= seq![(t@, jm)]);
    Json::Object(ms)
}

/// The tagged JSON form of a wire value.
#[verifier::loop_isolation(false)]
pub fn wire_to_json(w: &WireValue) -> (r: Json)
    ensures
        r.model() == to_json(w.model()),
    decreases w,
{
    match w {
        WireValue::Bool(b) => tag("b", Json::Bool(*b)),
        WireValue::Int(n) => tag("n", Json::Int(*n)),
        WireValue::UInt(n) => tag("n", Json::UInt(*n)),
        WireValue::Decimal(d) => tag("n", Json::Number(d.clone())),
        WireValue::Special(m) => tag("v", Json::Str(special_marker(*m).to_owned())),
        WireValue::Str(t) => tag("s", Json::Str(t.clone())),
        WireValue::Date(t) => tag("d", Json::Str(t.clone())),
        WireValue::Handle(i) => tag("h", Json::UInt(*i as u64)),
        WireValue::Array(ws) => {
            let ghost ms = wire_models(ws@);
            let mut out: Vec<Json> = Vec::new();
            let mut i: usize = 0;
            while i < ws.len()
                invariant
                    i <= ws@.len(),
                    *w == WireValue::Array(*ws),
                    ms == wire_models(ws@),
                    out@.len() == i,
                    forall|k: int| 0 <= k < i ==> (#[trigger] out@[k]).model() == to_json(ms[k]),
                decreases ws@.len() - i,
            {
                proof {
                    assert(decreases_to!(ws => ws[i as int]));
                }
                let x = wire_to_json(&ws[i]);
                out.push(x);
                i = i + 1;
            }
            assert(json_models(out@) =~= to_json_list(ms));
            tag("a", Json::Array(out))
        },
        WireValue::Object(es) => {
            let ghost ms = entry_models(es@);
            let mut out: Vec<Json> = Vec::new();
            let mut i: usize = 0;
            while i < es.len()
                invariant
                    i <= es@.len(),
                    *w == WireValue::Object(*es),
                    ms == entry_models(es@),
                    out@.len() == i,
                    forall|k: int| 0 <= k < i ==> (#[trigger] out@[k]).model() == entry_json(ms[k].0, to_json(ms[k].1)),
                decreases es@.len() - i,
            {
                proof {
                    assert(decreases_to!(es => es[i as int]));
                }
                let v = wire_to_json(&es[i].value);
                let ghost vm = v.model();
                let mut pair: Vec<Member> = Vec::new();
                pair.push(Member { key: "k".to_owned(), value: Json::Str(es[i].key.clone()) });
                pair.push(Member { key: "v".to_owned(), value: v });
                proof {
                    assert(member_models(pair@) =~= seq![("k"@, JsonM::Str(es@[i as int].key@)), ("v"@, vm)]);
                }
                out.push(Json::Object(pair));
                i = i + 1;
            }
            assert(json_models(out@) =~= to_json_entries(ms));
            tag("o", Json::Array(out))
        },
    }
}

proof fn lemma_from_json_list_err(js: Seq<JsonM>, k: int)
    requires
        0 <= k <= js.len(),
        from_json_list(js.take(k)) is None,
    ensures
        from_json_list(js) is None,
    decreases js.len() - k,
{
    if k == js.len() {
        assert(js.take(k) =~= js);
    } else {
        assert(js.take(k + 1).drop_last() =~= js.take(k));
        lemma_from_json_list_err(js, k + 1);
    }
}

proof fn lemma_from_json_entries_err(js: Seq<JsonM>, k: int)
    requires
        0 <= k <= js.len(),
        from_json_entries(js.take(k)) is None,
    ensures
        from_json_entries(js) is None,
    decreases js.len() - k,
{
    if k == js.len() {
        assert(js.take(k) =~= js);
    } else {
        assert(js.take(k + 1).drop_last() =~= js.take(k));
        lemma_from_json_entries_err(js, k + 1);
    }
}

fn malformed<T>() -> (r: Result<T, Error>)
    ensures
        r == Err::<T, Error>(Error::Malformed),
{
    Err(Error::Malformed)
}

/// Reads the tagged JSON form back; anything malformed fails with
/// `Malformed`.
#[verifier::loop_isolation(false)]
pub fn wire_from_json(j: &Json) -> (r: Result<WireValue, Error>)
    ensures
        match from_json(j.model()) {
            Some(w) => r is Ok && r->Ok_0.model() == w,
            None => r == Err::<WireValue, Error>(Error::Malformed),
        },
    decreases j,
{
    proof {
        lemma_reveal_tags();
    }
    let ms = match j {
        Json::Object(ms) => ms,
        _ => return malformed(),
    };
    if ms.len() != 1 {
        return malformed();
    }
    let t = &ms[0].key;
    let inner = &ms[0].value;
    proof {
        assert(j.model() == JsonM::Object(member_models(ms@)));
        assert(member_models(ms@)[0] == (t@, inner.model()));
    }
    if *t == "b".to_owned() {
        match inner {
            Json::Bool(b) => Ok(WireValue::Bool(*b)),
            _ => malformed(),
        }
    } else if *t == "n".to_owned() {
        match inner {
            Json::Int(n) => Ok(WireValue::Int(*n)),
            Json::UInt(n) => Ok(WireValue::UInt(*n)),
            Json::Number(d) => Ok(WireValue::Decimal(d.clone())),
            _ => malformed(),
        }
    } else if *t == "v".to_owned() {
        match inner {
            Json::Str(m) => match special_from_marker(m.as_str()) {
                Some(sp) => {
                    proof {
                        lemma_special_of_marker(sp);
                    }
                    Ok(WireValue::Special(sp))
                },
                None => {
                    proof {
                        if special_of(m@) is Some {
                            let sp = special_of(m@)->0;
                            assert(marker_of(sp) == m@);
                        }
                    }
                    malformed()
                },
            },
            _ => malformed(),
        }
    } else if *t == "s".to_owned() {
        match inner {
            Json::Str(x) => Ok(WireValue::Str(x.clone())),
            _ => malformed(),
        }
    } else if *t == "d".to_owned() {
        match inner {
            Json::Str(x) => Ok(WireValue::Date(x.clone())),
            _ => malformed(),
        }
    } else if *t == "h".to_owned() {
        match inner {
            Json::UInt(i) => if *i <= usize::MAX as u64 {
                Ok(WireValue::Handle(*i as usize))
            } else {
                malformed()
            },
            _ => malformed(),
        }
    } else if *t == "a".to_owned() {
        match inner {
            Json::Array(js) => {
                let ghost jm = json_models(js@);
                let mut out: Vec<WireValue> = Vec::new();
                let mut i: usize = 0;
                proof {
                    assert(jm.take(0) =~= Seq::<JsonM>::empty());
                    assert(wire_models(out@) =~= Seq::<Wire>::empty());
                }
                while i < js.len()
                    invariant
                        i <= js@.len(),
                        *j == Json::Object(*ms),
                        ms@.len() == 1,
                        ms@[0].value == Json::Array(*js),
                        jm == json_models(js@),
                        from_json_list(jm.take(i as int)) == Some(wire_models(out@)),
                    decreases js@.len() - i,
                {
                    proof {
                        assert(jm.take(i + 1).drop_last() =~= jm.take(i as int));
                        assert(jm.take(i + 1).last() == jm[i as int]);
                    }
                    match wire_from_json(&js[i]) {
                        Ok(w) => {
                            let ghost before = out@;
                            out.push(w);
                            proof {
                                assert(wire_models(out@) =~= wire_models(before).push(w.model()));
                            }
                        },
                        Err(e) => {
                            proof {
                                lemma_from_json_list_err(jm, i + 1);
                            }
                            return Err(e);
                        },
                    }
                    i = i + 1;
                }
                proof {
                    assert(jm.take(i as int) =~= jm);
                }
                Ok(WireValue::Array(out))
            },
            _ => malformed(),
        }
    } else if *t == "o".to_owned() {
        match inner {
            Json::Array(js) => {
                let ghost jm = json_models(js@);
                let mut out: Vec<WireEntry> = Vec::new();
                let mut i: usize = 0;
                proof {
                    assert(jm.take(0) =~= Seq::<JsonM>::empty());
                    assert(entry_models(out@) =~= Seq::<(Seq<char>, Wire)>::empty());
                }
                while i < js.len()
                    invariant
                        i <= js@.len(),
                        *j == Json::Object(*ms),
                        ms@.len() == 1,
                        ms@[0].value == Json::Array(*js),
                        jm == json_models(js@),
                        from_json_entries(jm.take(i as int)) == Some(entry_models(out@)),
                    decreases js@.len() - i,
                {
                    proof {
                        assert(jm.take(i + 1).drop_last() =~= jm.take(i as int));
                        assert(jm.take(i + 1).last() == jm[i as int]);
                        lemma_reveal_tags();
                    }
                    let e = &js[i];
                    proof {
                        assert(jm[i as int] == e.model());
                    }
                    let pm = match e {
                        Json::Object(pm) => pm,
                        _ => {
                            proof {
                                assert(!(e.model() is Object));
                                assert(from_json_entry(jm[i as int]) is None);
                                assert(from_json_entries(jm.take(i + 1)) is None);
                                lemma_from_json_entries_err(jm, i + 1);
                            }
                            return malformed();
                        },
                    };
                    let ok_shape = pm.len() == 2 && pm[0].key == "k".to_owned() && pm[1].key == "v".to_owned();
                    proof {
                        assert(e.model() == JsonM::Object(member_models(pm@)));
                        assert(member_models(pm@).len() == pm@.len());
                        if pm@.len() == 2 {
                            assert(member_models(pm@)[0].0 == pm@[0].key@);
                            assert(member_models(pm@)[1].0 == pm@[1].key@);
                            assert(member_models(pm@)[0].1 == pm@[0].value.model());
                            assert(member_models(pm@)[1].1 == pm@[1].value.model());
                        }
                    }
                    if !ok_shape {
                        proof {
                            assert(from_json_entry(jm[i as int]) is None);
                            assert(from_json_entries(jm.take(i + 1)) is None);
                            lemma_from_json_entries_err(jm, i + 1);
                        }
                        return malformed();
                    }
                    let key = match &pm[0].value {
                        Json::Str(k) => k.clone(),
                        _ => {
                            proof {
                                lemma_from_json_entries_err(jm, i + 1);
                            }
                            return malformed();
                        },
                    };
                    match wire_from_json(&pm[1].value) {
                        Ok(w) => {
                            let ghost before = out@;
                            out.push(WireEntry { key, value: w });
                            proof {
                                assert(entry_models(out@) =~= entry_models(before).push((key@, w.model())));
                            }
                        },
                        Err(x) => {
                            proof {
                                lemma_from_json_entries_err(jm, i + 1);
                            }
                            return Err(x);
                        },
                    }
                    i = i + 1;
                }
                proof {
                    assert(jm.take(i as int) =~= jm);
                }
                Ok(WireValue::Object(out))
            },
            _ => malformed(),
        }
    } else {
        malformed()
    }
}

/// Reading back the tagged JSON form of a wire value gives the value: the
/// special markers, numbers, strings, dates, handles and the order of
/// sequence elements and object entries all survive.
pub proof fn lemma_json_round_trip(w: WireValue)
    ensures
        from_json(to_json(w.model())) == Some(w.model()),
    decreases w,
{
    lemma_reveal_tags();
    match w {
        WireValue::Special(s) => {
            lemma_special_of_marker(s);
            assert("v"@ != "b"@ && "v"@ != "n"@);
        },
        WireValue::Handle(i) => {
            assert(((i as nat) as u64) as nat == i as nat);
        },
        WireValue::Array(a) => {
            lemma_json_round_trip_list(a@);
            assert(w.model() == Wire::Array(wire_models(a@)));
        },
        WireValue::Object(es) => {
            lemma_json_round_trip_entries(es@);
            assert(w.model() == Wire::Object(entry_models(es@)));
        },
        _ => {},
    }
}

proof fn lemma_json_round_trip_list(s: Seq<WireValue>)
    ensures
        from_json_list(to_json_list(wire_models(s))) == Some(wire_models(s)),
    decreases s,
{
    if s.len() == 0 {
        assert(to_json_list(wire_models(s)) =~= Seq::<JsonM>::empty());
        assert(wire_models(s) =~= Seq::<Wire>::empty());
    } else {
        lemma_json_round_trip_list(s.drop_last());
        lemma_json_round_trip(s.last());
        assert(to_json_list(wire_models(s)).drop_last() =~= to_json_list(wire_models(s.drop_last())));
        assert(to_json_list(wire_models(s)).last() == to_json(s.last().model()));
        assert(wire_models(s.drop_last()).push(s.last().model()) =~= wire_models(s));
    }
}

proof fn lemma_json_round_trip_entries(s: Seq<WireEntry>)
    ensures
        from_json_entries(to_json_entries(entry_models(s))) == Some(entry_models(s)),
    decreases s,
{
    lemma_reveal_tags();
    if s.len() == 0 {
        assert(to_json_entries(entry_models(s)) =~= Seq::<JsonM>::empty());
        assert(entry_models(s) =~= Seq::<(Seq<char>, Wire)>::empty());
    } else {
        lemma_json_round_trip_entries(s.drop_last());
        lemma_json_round_trip(s.last().value);
        assert(to_json_entries(entry_models(s)).drop_last() =~= to_json_entries(entry_models(s.drop_last())));
        let e = entry_json(s.last().key@, to_json(s.last().value.model()));
        assert(to_json_entries(entry_models(s)).last() == e);
        let ms = seq![("k"@, JsonM::Str(s.last().key@)), ("v"@, to_json(s.last().value.model()))];
        assert(e == JsonM::Object(ms));
        assert(ms.len() == 2 && ms[0].0 == "k"@ && ms[1].0 == "v"@ && ms[0].1 is Str);
        assert(from_json_entry(e) == Some((s.last().key@, s.last().value.model())));
        assert(entry_models(s.drop_last()).push((s.last().key@, s.last().value.model())) =~= entry_models(s));
    }
}

/// The JSON for a handle list: `[{"guid": g}, ...]`.
pub open spec fn handles_json(hs: Seq<Seq<char>>) -> Seq<JsonM> {
    Seq::new(hs.len(), |k: int| JsonM::Object(seq![("guid"@, JsonM::Str(hs[k]))]))
}

/// A whole encoded message: `{"value": ..., "handles": [{"guid": ...}, ...]}`.
pub fn encoded_to_json(e: &Encoded) -> (r: Json)
    ensures
        r.model() == JsonM::Object(
            seq![
                ("value"@, to_json(e.value.model())),
                ("handles"@, JsonM::Array(handles_json(string_views(e.handles@)))),
            ],
        ),
{
    let mut hs: Vec<Json> = Vec::new();
    let mut i: usize = 0;
    while i < e.handles.len()
        invariant
            i <= e.handles@.len(),
            hs@.len() == i,
            forall|k: int|
                0 <= k < i ==> (#[trigger] hs@[k]).model() == JsonM::Object(seq![("guid"@, JsonM::Str(e.handles@[k]@))]),
        decreases e.handles@.len() - i,
    {
        let mut g: Vec<Member> = Vec::new();
        g.push(Member { key: "guid".to_owned(), value: Json::Str(e.handles[i].clone()) });
        assert(member_models(g@) =~= seq![("guid"@, JsonM::Str(e.handles@[i as int]@))]);
        hs.push(Json::Object(g));
        i = i + 1;
    }
    assert(json_models(hs@) =~= handles_json(string_views(e.handles@)));
    let v = wire_to_json(&e.value);
    let ghost vm = v.model();
    let ghost hm = json_models(hs@);
    let mut ms: Vec<Member> = Vec::new();
    ms.push(Member { key: "value".to_owned(), value: v });
    ms.push(Member { key: "handles".to_owned(), value: Json::Array(hs) });
    assert(member_models(ms@) =~= seq![("value"@, vm), ("handles"@, JsonM::Array(hm))]);
    Json::Object(ms)
}

} // verus!
