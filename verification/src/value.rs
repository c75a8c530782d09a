//! The typed source values decoded from the binary container, and the
//! generic JSON values they are mapped to.
//!
//! A decoded value is a closed tagged union.  Everything the mapping logic
//! reads is held as a plain value: raw byte payloads as byte vectors,
//! floating-point numbers as their IEEE-754 double bits next to the decimal
//! rendering produced where the value was decoded (this crate holds floats
//! only as bits), decimals and UUIDs as their stable textual forms.
use vstd::prelude::*;

verus! {

/// One decoded value of the schema-typed source format.
#[derive(Debug, PartialEq)]
pub enum AvroVal {
    Null,
    Boolean(bool),
    Int(i32),
    Long(i64),
    /// A single-precision number, already widened to double: its IEEE-754
    /// double bits and the decimal rendering of that double.
    Float(u64, String),
    /// A double-precision number: its IEEE-754 bits and its decimal rendering.
    Double(u64, String),
    Bytes(Vec<u8>),
    Str(String),
    /// Fixed-size byte payload: the declared size and the bytes.
    Fixed(usize, Vec<u8>),
    /// An enum symbol: its position in the schema's symbol list and its text.
    Enum(u32, String),
    /// A union value: the branch position and the active branch value.
    Union(u32, Box<AvroVal>),
    Array(Vec<AvroVal>),
    /// A map from string keys to values; insertion order is irrelevant and
    /// duplicate keys are resolved last-write-wins when mapped.
    Mapping(Vec<(String, AvroVal)>),
    /// A record: (field name, value) pairs in declared order.
    Record(Vec<(String, AvroVal)>),
    /// Days since the epoch.
    Date(i32),
    TimeMillis(i32),
    TimeMicros(i64),
    TimestampMillis(i64),
    TimestampMicros(i64),
    LocalTimestampMillis(i64),
    LocalTimestampMicros(i64),
    /// The stable textual rendering of the decimal's internal representation,
    /// produced where the value was decoded.
    Decimal(String),
    /// The canonical hyphenated UUID text.
    Uuid(String),
    /// A duration: months, days, milliseconds.
    Duration(u32, u32, u32),
}

/// One generic JSON value, as held in memory before serialization.
#[derive(Debug, PartialEq)]
pub enum JsonVal {
    Null,
    Bool(bool),
    /// An exact integral number.
    NumLong(i64),
    /// A finite double: its IEEE-754 bits and its decimal rendering, which
    /// the serializer emits verbatim.
    NumDouble(u64, String),
    Str(String),
    Arr(Vec<JsonVal>),
    /// Object entries in emission order; keys are unique.
    Obj(Vec<(String, JsonVal)>),
}

/// The mathematical model of a JSON value: text as character sequences,
/// containers as sequences.
pub enum JsonData {
    Null,
    Bool(bool),
    NumLong(i64),
    NumDouble(u64, Seq<char>),
    Str(Seq<char>),
    Arr(Seq<JsonData>),
    Obj(Seq<(Seq<char>, JsonData)>),
}

pub open spec fn json_view(v: JsonVal) -> JsonData
    decreases v,
{
    match v {
        JsonVal::Null => JsonData::Null,
        JsonVal::Bool(b) => JsonData::Bool(b),
        JsonVal::NumLong(n) => JsonData::NumLong(n),
        JsonVal::NumDouble(bits, t) => JsonData::NumDouble(bits, t@),
        JsonVal::Str(s) => JsonData::Str(s@),
        JsonVal::Arr(a) => JsonData::Arr(json_view_list(a@)),
        JsonVal::Obj(o) => JsonData::Obj(json_view_entries(o@)),
    }
}

pub open spec fn json_view_list(a: Seq<JsonVal>) -> Seq<JsonData>
    decreases a,
{
    if a.len() == 0 {
        Seq::empty()
    } else {
        seq![json_view(a[0])] + json_view_list(a.skip(1))
    }
}

pub open spec fn json_view_entries(o: Seq<(String, JsonVal)>) -> Seq<(Seq<char>, JsonData)>
    decreases o,
{
    if o.len() == 0 {
        Seq::empty()
    } else {
        seq![(o[0].0@, json_view(o[0].1))] + json_view_entries(o.skip(1))
    }
}

impl View for JsonVal {
    type V = JsonData;

    open spec fn view(&self) -> JsonData {
        json_view(*self)
    }
}

pub proof fn lemma_json_view_list(a: Seq<JsonVal>)
    ensures
        json_view_list(a).len() == a.len(),
        forall|i: int| 0 <= i < a.len() ==> json_view_list(a)[i] == json_view(a[i]),
    decreases a.len(),
{
    if a.len() > 0 {
        lemma_json_view_list(a.skip(1));
        assert forall|i: int| 0 <= i < a.len() implies json_view_list(a)[i] == json_view(
            a[i],
        ) by {
            if i > 0 {
                assert(a.skip(1)[i - 1] == a[i]);
            }
        }
    }
}

pub proof fn lemma_json_view_entries(o: Seq<(String, JsonVal)>)
    ensures
        json_view_entries(o).len() == o.len(),
        forall|i: int|
            0 <= i < o.len() ==> json_view_entries(o)[i] == (o[i].0@, json_view(o[i].1)),
    decreases o.len(),
{
    if o.len() > 0 {
        lemma_json_view_entries(o.skip(1));
        assert forall|i: int|
            0 <= i < o.len() implies json_view_entries(o)[i] == (o[i].0@, json_view(o[i].1)) by {
            if i > 0 {
                assert(o.skip(1)[i - 1] == o[i]);
            }
        }
    }
}

/// Nesting depth of a source value, the termination measure of the
/// recursive mapping.
pub open spec fn avro_depth(v: AvroVal) -> nat
    decreases v,
{
    match v {
        AvroVal::Union(_, b) => 1 + avro_depth(*b),
        AvroVal::Array(a) => 1 + avro_depth_list(a@),
        AvroVal::Mapping(o) => 1 + avro_depth_entries(o@),
        AvroVal::Record(o) => 1 + avro_depth_entries(o@),
        _ => 0,
    }
}

pub open spec fn avro_depth_list(a: Seq<AvroVal>) -> nat
    decreases a,
{
    if a.len() == 0 {
        0
    } else if avro_depth(a[0]) > avro_depth_list(a.skip(1)) {
        avro_depth(a[0])
    } else {
        avro_depth_list(a.skip(1))
    }
}

pub open spec fn avro_depth_entries(o: Seq<(String, AvroVal)>) -> nat
    decreases o,
{
    if o.len() == 0 {
        0
    } else if avro_depth(o[0].1) > avro_depth_entries(o.skip(1)) {
        avro_depth(o[0].1)
    } else {
        avro_depth_entries(o.skip(1))
    }
}

pub proof fn lemma_avro_depth_list(a: Seq<AvroVal>, i: int)
    requires
        0 <= i < a.len(),
    ensures
        avro_depth(a[i]) <= avro_depth_list(a),
    decreases a.len(),
{
    if i > 0 {
        lemma_avro_depth_list(a.skip(1), i - 1);
        assert(a.skip(1)[i - 1] == a[i]);
    }
}

pub proof fn lemma_avro_depth_entries(o: Seq<(String, AvroVal)>, i: int)
    requires
        0 <= i < o.len(),
    ensures
        avro_depth(o[i].1) <= avro_depth_entries(o),
    decreases o.len(),
{
    if i > 0 {
        lemma_avro_depth_entries(o.skip(1), i - 1);
        assert(o.skip(1)[i - 1] == o[i]);
    }
}

/// Nesting depth of a JSON value, the termination measure of the
/// recursive serializer.
pub open spec fn json_depth(v: JsonVal) -> nat
    decreases v,
{
    match v {
        JsonVal::Arr(a) => 1 + json_depth_list(a@),
        JsonVal::Obj(o) => 1 + json_depth_entries(o@),
        _ => 0,
    }
}

pub open spec fn json_depth_list(a: Seq<JsonVal>) -> nat
    decreases a,
{
    if a.len() == 0 {
        0
    } else if json_depth(a[0]) > json_depth_list(a.skip(1)) {
        json_depth(a[0])
    } else {
        json_depth_list(a.skip(1))
    }
}

pub open spec fn json_depth_entries(o: Seq<(String, JsonVal)>) -> nat
    decreases o,
{
    if o.len() == 0 {
        0
    } else if json_depth(o[0].1) > json_depth_entries(o.skip(1)) {
        json_depth(o[0].1)
    } else {
        json_depth_entries(o.skip(1))
    }
}

pub proof fn lemma_json_depth_list(a: Seq<JsonVal>, i: int)
    requires
        0 <= i < a.len(),
    ensures
        json_depth(a[i]) <= json_depth_list(a),
    decreases a.len(),
{
    if i > 0 {
        lemma_json_depth_list(a.skip(1), i - 1);
        assert(a.skip(1)[i - 1] == a[i]);
    }
}

pub proof fn lemma_json_depth_entries(o: Seq<(String, JsonVal)>, i: int)
    requires
        0 <= i < o.len(),
    ensures
        json_depth(o[i].1) <= json_depth_entries(o),
    decreases o.len(),
{
    if i > 0 {
        lemma_json_depth_entries(o.skip(1), i - 1);
        assert(o.skip(1)[i - 1] == o[i]);
    }
}

} // verus!

verus! {

/// A bound that holds of every member's depth holds of the whole list.
pub proof fn lemma_json_depth_list_le(a: Seq<JsonVal>, b: nat)
    requires
        forall|i: int| 0 <= i < a.len() ==> json_depth(a[i]) <= b,
    ensures
        json_depth_list(a) <= b,
    decreases a.len(),
{
    if a.len() > 0 {
        assert(forall|i: int| 0 <= i < a.skip(1).len() ==> a.skip(1)[i] == a[i + 1]);
        lemma_json_depth_list_le(a.skip(1), b);
    }
}

/// A bound that holds of every entry's depth holds of all the entries.
pub proof fn lemma_json_depth_entries_le(o: Seq<(String, JsonVal)>, b: nat)
    requires
        forall|i: int| 0 <= i < o.len() ==> json_depth(o[i].1) <= b,
    ensures
        json_depth_entries(o) <= b,
    decreases o.len(),
{
    if o.len() > 0 {
        assert(forall|i: int| 0 <= i < o.skip(1).len() ==> o.skip(1)[i] == o[i + 1]);
        lemma_json_depth_entries_le(o.skip(1), b);
    }
}

} // verus!
