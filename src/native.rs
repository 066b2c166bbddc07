//! Native structured values as the codec sees them, and their model.
use vstd::prelude::*;
use crate::wire::Special;

verus! {

/// A native value, visited structurally by the codec.
#[derive(Debug)]
pub enum Native {
    Bool(bool),
    Int(i64),
    UInt(u64),
    /// A finite non-integral number, as its JSON text.
    Decimal(String),
    /// The float markers and the two empty states (null and undefined).
    Special(Special),
    Str(String),
    /// A timestamp payload.
    Date(String),
    /// A live remote object, named by its guid.
    ObjectRef(String),
    /// Raw binary data, which the wire format does not carry.
    Bytes(Vec<u8>),
    List(Vec<Native>),
    /// Named fields in order.
    Object(Vec<NativeField>),
}

/// One named field of a [`Native::Object`].
#[derive(Debug)]
pub struct NativeField {
    pub key: String,
    pub value: Native,
}

/// Mathematical model of a [`Native`].
pub enum Value {
    Bool(bool),
    Int(i64),
    UInt(u64),
    Decimal(Seq<char>),
    Special(Special),
    Str(Seq<char>),
    Date(Seq<char>),
    ObjectRef(Seq<char>),
    Bytes(Seq<u8>),
    List(Seq<Value>),
    Object(Seq<(Seq<char>, Value)>),
}

impl Native {
    pub open spec fn model(&self) -> Value
        decreases self,
    {
        match self {
            Native::Bool(b) => Value::Bool(*b),
            Native::Int(n) => Value::Int(*n),
            Native::UInt(n) => Value::UInt(*n),
            Native::Decimal(d) => Value::Decimal(d@),
            Native::Special(s) => Value::Special(*s),
            Native::Str(s) => Value::Str(s@),
            Native::Date(s) => Value::Date(s@),
            Native::ObjectRef(g) => Value::ObjectRef(g@),
            Native::Bytes(b) => Value::Bytes(b@),
            Native::List(vs) => Value::List(native_models(vs@)),
            Native::Object(fs) => Value::Object(field_models(fs@)),
        }
    }
}

/// Models of a sequence of native values, element by element.
pub open spec fn native_models(s: Seq<Native>) -> Seq<Value>
    decreases s,
{
    Seq::new(s.len(), |i: int| if 0 <= i < s.len() { s[i].model() } else { Value::Bool(false) })
}

/// Models of a sequence of fields, field by field.
pub open spec fn field_models(s: Seq<NativeField>) -> Seq<(Seq<char>, Value)>
    decreases s,
{
    Seq::new(
        s.len(),
        |i: int| if 0 <= i < s.len() { (s[i].key@, s[i].value.model()) } else { (Seq::empty(), Value::Bool(false)) },
    )
}

} // verus!
