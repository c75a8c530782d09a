//! The value mapper: a pure, total translation of one typed source value
//! into one generic JSON value.
//!
//! Every variant maps without error.  Non-finite floating-point values are
//! the one lossy case: they become JSON Null.  Byte payloads become base64
//! strings; dates, times, timestamps, decimals and durations become
//! descriptive strings; a union is transparent and maps as its active
//! branch.
use vstd::prelude::*;
use vstd::string::StringExecFns;

use crate::base64::b64_text;
use crate::base64::base64_encode;
use crate::numtext::dec_int;
use crate::numtext::dec_nat;
use crate::numtext::push_dec_i64;
use crate::numtext::push_dec_u64;
use crate::value::AvroVal;
use crate::value::JsonData;
use crate::value::JsonVal;
use crate::value::avro_depth;
use crate::value::avro_depth_entries;
use crate::value::avro_depth_list;
use crate::value::json_view;
use crate::value::json_view_entries;
use crate::value::json_view_list;
use crate::value::lemma_avro_depth_entries;
use crate::value::lemma_avro_depth_list;
use crate::value::json_depth;
use crate::value::json_depth_entries;
use crate::value::json_depth_list;
use crate::value::lemma_json_depth_entries;
use crate::value::lemma_json_depth_entries_le;
use crate::value::lemma_json_depth_list;
use crate::value::lemma_json_depth_list_le;
use crate::value::lemma_json_view_entries;
use crate::value::lemma_json_view_list;

verus! {

/// Whether IEEE-754 double bits hold a finite value: the exponent field is
/// not all ones (all ones means an infinity or a NaN).
pub open spec fn is_finite_bits(bits: u64) -> bool {
    (bits >> 52) & 0x7ff != 0x7ff
}

/// Inserting a key into JSON object entries: the first entry with that key
/// is replaced in place, keeping its position; a fresh key is appended.
/// Duplicate source keys thus resolve last-write-wins.
pub open spec fn obj_insert(
    o: Seq<(Seq<char>, JsonData)>,
    k: Seq<char>,
    v: JsonData,
) -> Seq<(Seq<char>, JsonData)>
    decreases o,
{
    if o.len() == 0 {
        seq![(k, v)]
    } else if o[0].0 == k {
        seq![(k, v)] + o.skip(1)
    } else {
        seq![o[0]] + obj_insert(o.skip(1), k, v)
    }
}

/// The mapping of one typed source value to its JSON model.
pub open spec fn map_spec(v: AvroVal) -> JsonData
    decreases v,
{
    match v {
        AvroVal::Null => JsonData::Null,
        AvroVal::Boolean(b) => JsonData::Bool(b),
        AvroVal::Int(n) => JsonData::NumLong(n as i64),
        AvroVal::Long(n) => JsonData::NumLong(n),
        AvroVal::Float(bits, t) => if is_finite_bits(bits) {
            JsonData::NumDouble(bits, t@)
        } else {
            JsonData::Null
        },
        AvroVal::Double(bits, t) => if is_finite_bits(bits) {
            JsonData::NumDouble(bits, t@)
        } else {
            JsonData::Null
        },
        AvroVal::Bytes(b) => JsonData::Str(b64_text(b@)),
        AvroVal::Str(s) => JsonData::Str(s@),
        AvroVal::Fixed(_, b) => JsonData::Str(b64_text(b@)),
        AvroVal::Enum(_, symbol) => JsonData::Str(symbol@),
        AvroVal::Union(_, branch) => map_spec(*branch),
        AvroVal::Array(a) => JsonData::Arr(map_list(a@)),
        AvroVal::Mapping(o) => JsonData::Obj(map_entries(o@, Seq::empty())),
        AvroVal::Record(o) => JsonData::Obj(map_entries(o@, Seq::empty())),
        AvroVal::Date(d) => JsonData::Str("days-since-epoch:"@ + dec_int(d as int)),
        AvroVal::TimeMillis(n) => JsonData::Str("time-millis:"@ + dec_int(n as int)),
        AvroVal::TimeMicros(n) => JsonData::Str("time-micros:"@ + dec_int(n as int)),
        AvroVal::TimestampMillis(n) => JsonData::Str("timestamp-millis:"@ + dec_int(n as int)),
        AvroVal::TimestampMicros(n) => JsonData::Str("timestamp-micros:"@ + dec_int(n as int)),
        AvroVal::LocalTimestampMillis(n) => JsonData::Str(
            "local-timestamp-millis:"@ + dec_int(n as int),
        ),
        AvroVal::LocalTimestampMicros(n) => JsonData::Str(
            "local-timestamp-micros:"@ + dec_int(n as int),
        ),
        AvroVal::Decimal(t) => JsonData::Str("decimal:"@ + t@),
        AvroVal::Uuid(t) => JsonData::Str(t@),
        AvroVal::Duration(months, days, millis) => JsonData::Str(
            "duration:Months("@ + dec_nat(months as nat) + "):Days("@ + dec_nat(days as nat)
                + "):Millis("@ + dec_nat(millis as nat) + ")"@,
        ),
    }
}

/// Elementwise mapping of an array's members, in order.
pub open spec fn map_list(a: Seq<AvroVal>) -> Seq<JsonData>
    decreases a,
{
    if a.len() == 0 {
        Seq::empty()
    } else {
        seq![map_spec(a[0])] + map_list(a.skip(1))
    }
}

/// Folding a map's or record's (key, value) pairs into object entries,
/// first to last, inserting each mapped value under its key.
pub open spec fn map_entries(
    entries: Seq<(String, AvroVal)>,
    acc: Seq<(Seq<char>, JsonData)>,
) -> Seq<(Seq<char>, JsonData)>
    decreases entries,
{
    if entries.len() == 0 {
        acc
    } else {
        map_entries(entries.skip(1), obj_insert(acc, entries[0].0@, map_spec(entries[0].1)))
    }
}

pub proof fn lemma_map_list(a: Seq<AvroVal>)
    ensures
        map_list(a).len() == a.len(),
        forall|i: int| 0 <= i < a.len() ==> map_list(a)[i] == map_spec(a[i]),
    decreases a.len(),
{
    if a.len() > 0 {
        lemma_map_list(a.skip(1));
        assert forall|i: int| 0 <= i < a.len() implies map_list(a)[i] == map_spec(a[i]) by {
            if i > 0 {
                assert(a.skip(1)[i - 1] == a[i]);
            }
        }
    }
}

/// Inserting a key that no entry holds appends the pair.
proof fn lemma_obj_insert_absent(o: Seq<(Seq<char>, JsonData)>, k: Seq<char>, v: JsonData)
    requires
        forall|i: int| 0 <= i < o.len() ==> o[i].0 != k,
    ensures
        obj_insert(o, k, v) == o.push((k, v)),
    decreases o.len(),
{
    if o.len() == 0 {
        assert(obj_insert(o, k, v) =~= o.push((k, v)));
    } else {
        assert(forall|i: int| 0 <= i < o.skip(1).len() ==> o.skip(1)[i] == o[i + 1]);
        lemma_obj_insert_absent(o.skip(1), k, v);
        assert(obj_insert(o, k, v) =~= o.push((k, v)));
    }
}

/// Inserting a key held first at position `j` replaces that entry in place.
proof fn lemma_obj_insert_found(
    o: Seq<(Seq<char>, JsonData)>,
    k: Seq<char>,
    v: JsonData,
    j: int,
)
    requires
        0 <= j < o.len(),
        o[j].0 == k,
        forall|i: int| 0 <= i < j ==> o[i].0 != k,
    ensures
        obj_insert(o, k, v) == o.update(j, (k, v)),
    decreases o.len(),
{
    if j == 0 {
        assert(obj_insert(o, k, v) =~= o.update(0, (k, v)));
    } else {
        assert(forall|i: int| 0 <= i < o.skip(1).len() ==> o.skip(1)[i] == o[i + 1]);
        lemma_obj_insert_found(o.skip(1), k, v, j - 1);
        assert(obj_insert(o, k, v) =~= o.update(j, (k, v)));
    }
}

/// Replaces the first entry holding the key, or appends a fresh pair, so
/// that the entries' model is `obj_insert` of the old model.
fn obj_insert_exec(obj: &mut Vec<(String, JsonVal)>, k: String, v: JsonVal)
    ensures
        json_view_entries(final(obj)@) == obj_insert(
            json_view_entries(old(obj)@),
            k@,
            json_view(v),
        ),
        json_depth_entries(final(obj)@) <= json_depth_entries(old(obj)@)
            || json_depth_entries(final(obj)@) <= json_depth(v),
{
    proof {
        lemma_json_depth_entries_bound_setup(old(obj)@);
    }
    let ghost old_entries = json_view_entries(old(obj)@);
    proof {
        lemma_json_view_entries(old(obj)@);
    }
    let mut j: usize = 0;
    #[verifier::loop_isolation(false)]
    while j < obj.len()
        invariant
            j <= obj.len(),
            obj@ == old(obj)@,
            forall|i: int| 0 <= i < j ==> obj@[i].0@ != k@,
        decreases obj.len() - j,
    {
        if obj[j].0 == k {
            proof {
                assert(forall|i: int| 0 <= i < j ==> old_entries[i].0 != k@);
                assert(old_entries[j as int].0 == k@);
                lemma_obj_insert_found(old_entries, k@, json_view(v), j as int);
            }
            obj[j] = (k, v);
            proof {
                lemma_json_view_entries(obj@);
                assert(json_view_entries(obj@) =~= obj_insert(old_entries, k@, json_view(v)));
                let b = if json_depth_entries(old(obj)@) > json_depth(v) {
                    json_depth_entries(old(obj)@)
                } else {
                    json_depth(v)
                };
                assert forall|i: int| 0 <= i < obj@.len() implies json_depth(obj@[i].1) <= b by {
                    if i != j {
                        lemma_json_depth_entries(old(obj)@, i);
                    }
                }
                lemma_json_depth_entries_le(obj@, b);
            }
            return ;
        }
        j = j + 1;
    }
    proof {
        assert(forall|i: int| 0 <= i < old_entries.len() ==> old_entries[i].0 != k@);
        lemma_obj_insert_absent(old_entries, k@, json_view(v));
    }
    obj.push((k, v));
    proof {
        lemma_json_view_entries(obj@);
        assert(json_view_entries(obj@) =~= obj_insert(old_entries, k@, json_view(v)));
        let b = if json_depth_entries(old(obj)@) > json_depth(v) {
            json_depth_entries(old(obj)@)
        } else {
            json_depth(v)
        };
        assert forall|i: int| 0 <= i < obj@.len() implies json_depth(obj@[i].1) <= b by {
            if i < obj@.len() - 1 {
                lemma_json_depth_entries(old(obj)@, i);
            }
        }
        lemma_json_depth_entries_le(obj@, b);
    }
}

/// The entries' depth bounds each entry's depth; restated here so callers
/// of the insert see it of the entries they pass.
proof fn lemma_json_depth_entries_bound_setup(o: Seq<(String, JsonVal)>)
    ensures
        forall|i: int| 0 <= i < o.len() ==> json_depth(o[i].1) <= json_depth_entries(o),
{
    assert forall|i: int| 0 <= i < o.len() implies json_depth(o[i].1) <= json_depth_entries(
        o,
    ) by {
        lemma_json_depth_entries(o, i);
    }
}

/// Appends a literal prefix and the decimal text of `n`, giving the string
/// form the mapper uses for dates, times and timestamps.
fn tagged_int_string(prefix: &str, n: i64) -> (r: String)
    ensures
        r@ == prefix@ + dec_int(n as int),
{
    let mut r = String::from_str(prefix);
    push_dec_i64(&mut r, n);
    r
}

/// Maps one typed source value to its JSON value.  Total: no structurally
/// valid input fails; a non-finite float becomes JSON Null.
#[verifier::loop_isolation(false)]
#[verifier::rlimit(60)]
pub fn avro_value_to_json(v: &AvroVal) -> (r: JsonVal)
    ensures
        r@ == map_spec(*v),
        json_depth(r) <= avro_depth(*v),
    decreases avro_depth(*v), 1nat,
{
    match v {
        AvroVal::Null => JsonVal::Null,
        AvroVal::Boolean(b) => JsonVal::Bool(*b),
        AvroVal::Int(n) => JsonVal::NumLong(*n as i64),
        AvroVal::Long(n) => JsonVal::NumLong(*n),
        AvroVal::Float(bits, t) => {
            if (*bits >> 52) & 0x7ff != 0x7ff {
                JsonVal::NumDouble(*bits, t.clone())
            } else {
                JsonVal::Null
            }
        },
        AvroVal::Double(bits, t) => {
            if (*bits >> 52) & 0x7ff != 0x7ff {
                JsonVal::NumDouble(*bits, t.clone())
            } else {
                JsonVal::Null
            }
        },
        AvroVal::Bytes(b) => JsonVal::Str(base64_encode(b.as_slice())),
        AvroVal::Str(s) => JsonVal::Str(s.clone()),
        AvroVal::Fixed(_, b) => JsonVal::Str(base64_encode(b.as_slice())),
        AvroVal::Enum(_, symbol) => JsonVal::Str(symbol.clone()),
        AvroVal::Union(_, branch) => {
            proof {
                assert(avro_depth(*v) == 1 + avro_depth(**branch));
            }
            avro_value_to_json(branch)
        },
        AvroVal::Array(a) => {
            let mut out: Vec<JsonVal> = Vec::new();
            let mut i: usize = 0;
            while i < a.len()
                invariant
                    i <= a.len(),
                    out@.len() == i,
                    forall|jj: int| 0 <= jj < i ==> json_view(out@[jj]) == map_spec(a@[jj]),
                    forall|jj: int| 0 <= jj < i ==> json_depth(out@[jj]) <= avro_depth(a@[jj]),
                decreases a.len() - i,
            {
                proof {
                    lemma_avro_depth_list(a@, i as int);
                    assert(avro_depth(*v) == 1 + avro_depth_list(a@));
                }
                let item = avro_value_to_json(&a[i]);
                out.push(item);
                i = i + 1;
            }
            proof {
                lemma_json_view_list(out@);
                lemma_map_list(a@);
                assert(json_view_list(out@) =~= map_list(a@));
                assert forall|jj: int| 0 <= jj < out@.len() implies json_depth(out@[jj])
                    <= avro_depth_list(a@) by {
                    lemma_avro_depth_list(a@, jj);
                }
                lemma_json_depth_list_le(out@, avro_depth_list(a@));
            }
            JsonVal::Arr(out)
        },
        AvroVal::Mapping(entries) => JsonVal::Obj(map_entries_exec(v, entries)),
        AvroVal::Record(entries) => JsonVal::Obj(map_entries_exec(v, entries)),
        AvroVal::Date(d) => JsonVal::Str(tagged_int_string("days-since-epoch:", *d as i64)),
        AvroVal::TimeMillis(n) => JsonVal::Str(tagged_int_string("time-millis:", *n as i64)),
        AvroVal::TimeMicros(n) => JsonVal::Str(tagged_int_string("time-micros:", *n)),
        AvroVal::TimestampMillis(n) => JsonVal::Str(tagged_int_string("timestamp-millis:", *n)),
        AvroVal::TimestampMicros(n) => JsonVal::Str(tagged_int_string("timestamp-micros:", *n)),
        AvroVal::LocalTimestampMillis(n) => JsonVal::Str(
            tagged_int_string("local-timestamp-millis:", *n),
        ),
        AvroVal::LocalTimestampMicros(n) => JsonVal::Str(
            tagged_int_string("local-timestamp-micros:", *n),
        ),
        AvroVal::Decimal(t) => {
            let mut r = String::from_str("decimal:");
            r.append(t.as_str());
            JsonVal::Str(r)
        },
        AvroVal::Uuid(t) => JsonVal::Str(t.clone()),
        AvroVal::Duration(months, days, millis) => {
            let mut r = String::from_str("duration:Months(");
            push_dec_u64(&mut r, *months as u64);
            r.append("):Days(");
            push_dec_u64(&mut r, *days as u64);
            r.append("):Millis(");
            push_dec_u64(&mut r, *millis as u64);
            r.append(")");
            proof {
                assert(r@ =~= "duration:Months("@ + dec_nat(*months as nat) + "):Days("@
                    + dec_nat(*days as nat) + "):Millis("@ + dec_nat(*millis as nat) + ")"@);
            }
            JsonVal::Str(r)
        },
    }
}

/// Maps a record's or map's pairs into object entries, resolving duplicate
/// keys last-write-wins.
#[verifier::loop_isolation(false)]
fn map_entries_exec(v: &AvroVal, entries: &Vec<(String, AvroVal)>) -> (out: Vec<(String, JsonVal)>)
    requires
        avro_depth_entries(entries@) < avro_depth(*v),
    ensures
        json_view_entries(out@) == map_entries(entries@, Seq::empty()),
        json_depth_entries(out@) <= avro_depth_entries(entries@),
    decreases avro_depth(*v), 0nat,
{
    let mut out: Vec<(String, JsonVal)> = Vec::new();
    let mut i: usize = 0;
    proof {
        lemma_json_view_entries(out@);
        assert(entries@.skip(0) =~= entries@);
        assert(json_view_entries(out@) =~= Seq::empty());
    }
    while i < entries.len()
        invariant
            i <= entries.len(),
            map_entries(entries@, Seq::empty()) == map_entries(
                entries@.skip(i as int),
                json_view_entries(out@),
            ),
            json_depth_entries(out@) <= avro_depth_entries(entries@),
        decreases entries.len() - i,
    {
        proof {
            lemma_avro_depth_entries(entries@, i as int);
        }
        let mapped = avro_value_to_json(&entries[i].1);
        let key = entries[i].0.clone();
        let ghost before = json_view_entries(out@);
        obj_insert_exec(&mut out, key, mapped);
        proof {
            assert(entries@.skip(i as int).skip(1) =~= entries@.skip(i + 1));
            assert(entries@.skip(i as int)[0] == entries@[i as int]);
            assert(map_entries(entries@.skip(i as int), before) == map_entries(
                entries@.skip(i + 1),
                obj_insert(before, entries@[i as int].0@, map_spec(entries@[i as int].1)),
            ));
        }
        i = i + 1;
    }
    proof {
        assert(entries@.skip(entries@.len() as int) =~= Seq::<(String, AvroVal)>::empty());
    }
    out
}


/// The (key, mapped value) pairs of a record's fields, in declared order.
pub open spec fn mapped_fields(entries: Seq<(String, AvroVal)>) -> Seq<(Seq<char>, JsonData)> {
    entries.map_values(|e: (String, AvroVal)| (e.0@, map_spec(e.1)))
}

proof fn lemma_map_entries_disjoint(
    entries: Seq<(String, AvroVal)>,
    acc: Seq<(Seq<char>, JsonData)>,
)
    requires
        forall|i: int, j: int|
            0 <= i < j < entries.len() ==> entries[i].0@ != entries[j].0@,
        forall|i: int, j: int|
            0 <= i < acc.len() && 0 <= j < entries.len() ==> acc[i].0 != entries[j].0@,
    ensures
        map_entries(entries, acc) == acc + mapped_fields(entries),
    decreases entries.len(),
{
    if entries.len() == 0 {
        assert(map_entries(entries, acc) =~= acc + mapped_fields(entries));
    } else {
        let k = entries[0].0@;
        let mv = map_spec(entries[0].1);
        lemma_obj_insert_absent(acc, k, mv);
        let acc2 = acc.push((k, mv));
        assert(forall|i: int|
            0 <= i < entries.skip(1).len() ==> entries.skip(1)[i] == entries[i + 1]);
        lemma_map_entries_disjoint(entries.skip(1), acc2);
        assert(mapped_fields(entries.skip(1)) =~= mapped_fields(entries).skip(1));
        assert(map_entries(entries, acc) =~= acc + mapped_fields(entries));
    }
}

/// A record with uniquely named fields maps to an object with exactly as
/// many keys, in the same order, each holding the recursively mapped value.
pub proof fn lemma_record_mapping(fields: Vec<(String, AvroVal)>)
    requires
        forall|i: int, j: int|
            0 <= i < j < fields@.len() ==> fields@[i].0@ != fields@[j].0@,
    ensures
        map_spec(AvroVal::Record(fields)) == JsonData::Obj(mapped_fields(fields@)),
        mapped_fields(fields@).len() == fields@.len(),
        forall|i: int|
            0 <= i < fields@.len() ==> mapped_fields(fields@)[i] == (
                fields@[i].0@,
                map_spec(fields@[i].1),
            ),
{
    lemma_map_entries_disjoint(fields@, Seq::empty());
    assert(Seq::empty() + mapped_fields(fields@) =~= mapped_fields(fields@));
}

/// Recursion consistency: mapping an array is exactly the array of each
/// element's mapping, in original order.
pub proof fn lemma_array_mapping(elems: Vec<AvroVal>)
    ensures
        map_spec(AvroVal::Array(elems)) == JsonData::Arr(
            elems@.map_values(|e: AvroVal| map_spec(e)),
        ),
{
    lemma_map_list(elems@);
    assert(map_list(elems@) =~= elems@.map_values(|e: AvroVal| map_spec(e)));
}

/// Union transparency: a union maps exactly as its active branch does,
/// whatever that branch holds; the wrapper adds no JSON structure.
pub proof fn lemma_union_transparent(tag: u32, branch: Box<AvroVal>)
    ensures
        map_spec(AvroVal::Union(tag, branch)) == map_spec(*branch),
{
}

/// A finite double maps to a JSON number holding exactly its bits and its
/// rendering; a NaN or infinite one maps to JSON Null instead of failing.
pub proof fn lemma_double_mapping(bits: u64, text: String)
    ensures
        is_finite_bits(bits) ==> map_spec(AvroVal::Double(bits, text)) == JsonData::NumDouble(
            bits,
            text@,
        ),
        !is_finite_bits(bits) ==> map_spec(AvroVal::Double(bits, text)) == JsonData::Null,
        map_spec(AvroVal::Float(bits, text)) == map_spec(AvroVal::Double(bits, text)),
{
}

} // verus!
