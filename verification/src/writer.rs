//! The output writer: serializes the mapped records as one JSON array or as
//! newline-delimited JSON, compact or indented, with best-effort terminal
//! colorization.
//!
//! Whether the destination is an interactive terminal is decided by the
//! caller once per write; file handling stays outside this crate, which
//! returns the complete text to write.
use vstd::prelude::*;
use vstd::string::StringExecFns;

use crate::colorize::colorize_json;
use crate::colorize::colorized_form;
use crate::json_text::render;
use crate::json_text::to_json_string;
use crate::json_text::to_json_string_pretty;
use crate::mapper::avro_value_to_json;
use crate::mapper::map_list;
use crate::mapper::map_spec;
use crate::value::AvroVal;
use crate::value::JsonData;
use crate::value::JsonVal;
use crate::value::avro_depth;
use crate::value::json_depth;
use crate::value::json_view;
use crate::value::json_view_list;
use crate::value::lemma_json_depth_list_le;
use crate::value::lemma_json_view_list;

verus! {

/// The units the writer emits, one write each: the whole serialized array,
/// or one serialized record per line.
pub open spec fn unit_texts(rs: Seq<JsonData>, pretty: bool, as_array: bool) -> Seq<Seq<char>> {
    if as_array {
        seq![render(JsonData::Arr(rs), pretty, 0)]
    } else {
        rs.map_values(|r: JsonData| render(r, pretty, 0))
    }
}

/// Units joined into the full payload: each unit is followed by exactly one
/// newline, so an empty record sequence in line mode yields no output.
pub open spec fn join_lines(units: Seq<Seq<char>>) -> Seq<char>
    decreases units.len(),
{
    if units.len() == 0 {
        Seq::empty()
    } else {
        units[0] + seq!['\n'] + join_lines(units.skip(1))
    }
}

/// The complete uncolored output payload for the mapped records.
pub open spec fn output_text(rs: Seq<JsonData>, pretty: bool, as_array: bool) -> Seq<char> {
    join_lines(unit_texts(rs, pretty, as_array))
}

/// Each actual unit is a colorized form of the unit it stands for, joined
/// with one newline each.
pub open spec fn colorized_join(units: Seq<Seq<char>>, out: Seq<char>) -> bool
    decreases units.len(),
{
    if units.len() == 0 {
        out == Seq::<char>::empty()
    } else {
        exists|u2: Seq<char>, rest2: Seq<char>|
            colorized_form(units[0], u2) && colorized_join(units.skip(1), rest2) && out == u2
                + seq!['\n'] + rest2
    }
}

proof fn lemma_join_lines_take(us: Seq<Seq<char>>, i: int)
    requires
        0 <= i < us.len(),
    ensures
        join_lines(us.take(i + 1)) == join_lines(us.take(i)) + us[i] + seq!['\n'],
    decreases i,
{
    if i == 0 {
        assert(us.take(1).len() == 1);
        assert(us.take(1)[0] == us[0]);
        assert(us.take(1).skip(1) =~= Seq::<Seq<char>>::empty());
        assert(us.take(0) =~= Seq::<Seq<char>>::empty());
        assert(join_lines(us.take(1)) =~= join_lines(us.take(0)) + us[0] + seq!['\n']);
    } else {
        lemma_join_lines_take(us.skip(1), i - 1);
        assert(us.take(i + 1)[0] == us[0]);
        assert(us.take(i)[0] == us[0]);
        assert(us.skip(1)[i - 1] == us[i]);
        assert(us.take(i + 1).skip(1) =~= us.skip(1).take(i));
        assert(us.take(i).skip(1) =~= us.skip(1).take(i - 1));
        assert(join_lines(us.take(i + 1)) =~= join_lines(us.take(i)) + us[i] + seq!['\n']);
    }
}

/// When every actual unit colorizes its original, the joined actual text is
/// a colorized join of the originals.
proof fn lemma_colorized_join(origs: Seq<Seq<char>>, actual: Seq<Seq<char>>)
    requires
        origs.len() == actual.len(),
        forall|i: int| 0 <= i < origs.len() ==> colorized_form(origs[i], actual[i]),
    ensures
        colorized_join(origs, join_lines(actual)),
    decreases origs.len(),
{
    if origs.len() > 0 {
        assert(forall|i: int| 0 <= i < origs.skip(1).len() ==> origs.skip(1)[i] == origs[i + 1]);
        assert(forall|i: int|
            0 <= i < actual.skip(1).len() ==> actual.skip(1)[i] == actual[i + 1]);
        lemma_colorized_join(origs.skip(1), actual.skip(1));
        let u2 = actual[0];
        let rest2 = join_lines(actual.skip(1));
        assert(colorized_form(origs[0], u2));
        assert(join_lines(actual) == u2 + seq!['\n'] + rest2);
    }
}

/// Joins the units, appending one newline after each.
#[verifier::loop_isolation(false)]
fn join_units(units: &Vec<String>) -> (r: String)
    ensures
        r@ == join_lines(units@.map_values(|u: String| u@)),
{
    let ghost us = units@.map_values(|u: String| u@);
    let mut r = String::new();
    let mut i: usize = 0;
    proof {
        assert(us.take(0) =~= Seq::<Seq<char>>::empty());
    }
    while i < units.len()
        invariant
            i <= units.len(),
            r@ == join_lines(us.take(i as int)),
        decreases units.len() - i,
    {
        r.append(units[i].as_str());
        r.push('\n');
        proof {
            lemma_join_lines_take(us, i as int);
            assert(us[i as int] == units@[i as int]@);
            assert(r@ =~= join_lines(us.take(i + 1)));
        }
        i = i + 1;
    }
    proof {
        assert(us.take(units@.len() as int) =~= us);
    }
    r
}

/// Serializes the records into the writer's units: one serialized text for
/// the whole array, or one per record.  When colorization is asked for, each
/// unit is passed through the colorizer; the caller resolves the terminal
/// check into the `color` flag before calling.
#[verifier::loop_isolation(false)]
pub fn write_json_output(records: Vec<JsonVal>, pretty: bool, as_array: bool, color: bool) -> (units: Vec<String>)
    requires
        forall|i: int|
            0 <= i < records@.len() ==> json_depth(records@[i]) < usize::MAX as nat - 1,
    ensures
        units@.len() == unit_texts(json_view_list(records@), pretty, as_array).len(),
        !color ==> units@.map_values(|u: String| u@) == unit_texts(
            json_view_list(records@),
            pretty,
            as_array,
        ),
        color ==> forall|i: int|
            0 <= i < units@.len() ==> colorized_form(
                unit_texts(json_view_list(records@), pretty, as_array)[i],
                units@[i]@,
            ),
{
    let ghost rs = json_view_list(records@);
    proof {
        lemma_json_view_list(records@);
    }
    let mut units: Vec<String> = Vec::new();
    if as_array {
        proof {
            lemma_json_depth_list_le(records@, (usize::MAX - 2) as nat);
        }
        let arr = JsonVal::Arr(records);
        let text = if pretty {
            to_json_string_pretty(&arr)
        } else {
            to_json_string(&arr)
        };
        let unit = if color {
            colorize_json(text.as_str())
        } else {
            text
        };
        units.push(unit);
        proof {
            assert(unit_texts(rs, pretty, as_array).len() == 1);
            if !color {
                assert(units@.map_values(|u: String| u@) =~= unit_texts(rs, pretty, as_array));
            }
        }
    } else {
        let n = records.len();
        let mut i: usize = 0;
        while i < n
            invariant
                i <= n,
                units@.len() == i,
                !color ==> forall|j: int|
                    0 <= j < i ==> units@[j]@ == render(rs[j], pretty, 0),
                color ==> forall|j: int|
                    0 <= j < i ==> colorized_form(render(rs[j], pretty, 0), units@[j]@),
            decreases n - i,
        {
            let text = if pretty {
                to_json_string_pretty(&records[i])
            } else {
                to_json_string(&records[i])
            };
            let unit = if color {
                colorize_json(text.as_str())
            } else {
                text
            };
            units.push(unit);
            i = i + 1;
        }
        proof {
            assert(unit_texts(rs, pretty, as_array).len() == rs.len());
            assert(forall|j: int|
                0 <= j < rs.len() ==> unit_texts(rs, pretty, as_array)[j] == render(
                    rs[j],
                    pretty,
                    0,
                ));
            if !color {
                assert(units@.map_values(|u: String| u@) =~= unit_texts(rs, pretty, as_array));
            }
        }
    }
    units
}

/// Maps each record and produces the complete output payload, with
/// best-effort colorization of each unit when `color` is set.
pub fn convert_avro_to_json_with_color(
    records: &Vec<AvroVal>,
    pretty: bool,
    as_array: bool,
    color: bool,
) -> (out: String)
    requires
        forall|i: int|
            0 <= i < records@.len() ==> avro_depth(records@[i]) < usize::MAX as nat - 1,
    ensures
        !color ==> out@ == output_text(map_list(records@), pretty, as_array),
        color ==> colorized_join(unit_texts(map_list(records@), pretty, as_array), out@),
{
    let ghost mapped_spec = map_list(records@);
    let mut mapped: Vec<JsonVal> = Vec::new();
    let mut i: usize = 0;
    #[verifier::loop_isolation(false)]
    while i < records.len()
        invariant
            i <= records.len(),
            mapped@.len() == i,
            forall|j: int| 0 <= j < i ==> json_view(mapped@[j]) == map_spec(records@[j]),
            forall|j: int| 0 <= j < i ==> json_depth(mapped@[j]) <= avro_depth(records@[j]),
        decreases records.len() - i,
    {
        let jv = avro_value_to_json(&records[i]);
        mapped.push(jv);
        i = i + 1;
    }
    proof {
        lemma_json_view_list(mapped@);
        crate::mapper::lemma_map_list(records@);
        assert(json_view_list(mapped@) =~= map_list(records@));
    }
    let units = write_json_output(mapped, pretty, as_array, color);
    let out = join_units(&units);
    proof {
        if color {
            lemma_colorized_join(
                unit_texts(map_list(records@), pretty, as_array),
                units@.map_values(|u: String| u@),
            );
        }
    }
    out
}

/// Maps each record and produces the complete uncolored output payload: the
/// serialized array, or one serialized record per line, each unit followed
/// by one newline.
pub fn convert_avro_to_json(records: &Vec<AvroVal>, pretty: bool, as_array: bool) -> (out: String)
    requires
        forall|i: int|
            0 <= i < records@.len() ==> avro_depth(records@[i]) < usize::MAX as nat - 1,
    ensures
        out@ == output_text(map_list(records@), pretty, as_array),
{
    convert_avro_to_json_with_color(records, pretty, as_array, false)
}


/// An empty record sequence yields `[]` and a newline in array mode, and no
/// output at all in line mode, compact or indented alike.
pub proof fn lemma_empty_output(pretty: bool)
    ensures
        output_text(Seq::empty(), pretty, true) == seq!['[', ']', '\n'],
        output_text(Seq::empty(), pretty, false) == Seq::<char>::empty(),
{
    let units = unit_texts(Seq::empty(), pretty, true);
    assert(units.len() == 1);
    assert(units[0] == render(JsonData::Arr(Seq::empty()), pretty, 0));
    assert(units.skip(1) =~= Seq::<Seq<char>>::empty());
    assert(join_lines(units.skip(1)) == Seq::<char>::empty());
    assert(render(JsonData::Arr(Seq::empty()), pretty, 0) == seq!['[', ']']);
    assert(join_lines(units) == units[0] + seq!['\n'] + join_lines(units.skip(1)));
    assert(output_text(Seq::empty(), pretty, true) =~= seq!['[', ']', '\n']);
    assert(unit_texts(Seq::empty(), pretty, false) =~= Seq::<Seq<char>>::empty());
}


/// Line mode emits one unit per record: for two records the payload is the
/// first record's compact text, a newline, the second's, and a newline.
pub proof fn lemma_two_records_line_mode(r0: JsonData, r1: JsonData)
    ensures
        output_text(seq![r0, r1], false, false) == render(r0, false, 0) + seq!['\n'] + render(
            r1,
            false,
            0,
        ) + seq!['\n'],
{
    let rs = seq![r0, r1];
    let units = unit_texts(rs, false, false);
    assert(units.len() == 2);
    assert(units[0] == render(r0, false, 0));
    assert(units[1] == render(r1, false, 0));
    assert(units.skip(1)[0] == units[1]);
    assert(units.skip(1).skip(1) =~= Seq::<Seq<char>>::empty());
    assert(join_lines(units.skip(1).skip(1)) == Seq::<char>::empty());
    assert(join_lines(units.skip(1)) =~= render(r1, false, 0) + seq!['\n']);
    assert(join_lines(units) == units[0] + seq!['\n'] + join_lines(units.skip(1)));
    assert(output_text(rs, false, false) =~= render(r0, false, 0) + seq!['\n'] + render(
        r1,
        false,
        0,
    ) + seq!['\n']);
}

} // verus!
