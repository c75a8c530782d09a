//! Serialization of JSON values to text: compact, or indented by two
//! spaces per nesting level.
use vstd::prelude::*;
use vstd::string::StringExecFns;

use crate::numtext::dec_int;
use crate::numtext::push_dec_i64;
use crate::value::JsonData;
use crate::value::JsonVal;
use crate::value::json_depth;
use crate::value::json_view;
use crate::value::json_depth_entries;
use crate::value::json_depth_list;
use crate::value::lemma_json_depth_entries;
use crate::value::lemma_json_depth_list;

verus! {

/// A lowercase hexadecimal digit.
pub open spec fn hex_digit(d: int) -> char {
    if d < 10 {
        (48 + d) as char
    } else {
        (87 + d) as char
    }
}

/// The escaped text of one string character: quote and backslash get a
/// backslash; the control characters with short escapes use them; any other
/// control character becomes a `\u00..` escape; everything else stands as
/// itself.
pub open spec fn esc_char(c: char) -> Seq<char> {
    if c == '"' {
        seq!['\\', '"']
    } else if c == '\\' {
        seq!['\\', '\\']
    } else if c == '\u{8}' {
        seq!['\\', 'b']
    } else if c == '\t' {
        seq!['\\', 't']
    } else if c == '\n' {
        seq!['\\', 'n']
    } else if c == '\u{c}' {
        seq!['\\', 'f']
    } else if c == '\r' {
        seq!['\\', 'r']
    } else if (c as int) < 32 {
        seq!['\\', 'u', '0', '0', hex_digit(c as int / 16), hex_digit(c as int % 16)]
    } else {
        seq![c]
    }
}

/// The escaped text of a whole string body.
pub open spec fn esc_str(s: Seq<char>) -> Seq<char>
    decreases s,
{
    if s.len() == 0 {
        Seq::empty()
    } else {
        esc_char(s[0]) + esc_str(s.skip(1))
    }
}

/// A newline followed by the indentation of nesting level `d`, two spaces
/// per level.
pub open spec fn nl_indent(d: nat) -> Seq<char>
    decreases d,
{
    if d == 0 {
        seq!['\n']
    } else {
        nl_indent((d - 1) as nat) + seq![' ', ' ']
    }
}

/// What precedes an item at level `d + 1`: nothing when compact, a newline
/// and indentation when indented.
pub open spec fn item_open(p: bool, d: nat) -> Seq<char> {
    if p {
        nl_indent(d + 1)
    } else {
        Seq::empty()
    }
}

/// What precedes a container's closing bracket when it held items.
pub open spec fn close_indent(p: bool, d: nat) -> Seq<char> {
    if p {
        nl_indent(d)
    } else {
        Seq::empty()
    }
}

/// The separator between a key and its value.
pub open spec fn kv_sep(p: bool) -> Seq<char> {
    if p {
        seq![':', ' ']
    } else {
        seq![':']
    }
}

/// The serialized text of a JSON value at nesting level `d`: compact when
/// `p` is false, indented when `p` is true.  Empty containers stay on one
/// line either way.
pub open spec fn render(v: JsonData, p: bool, d: nat) -> Seq<char>
    decreases v, 1nat,
{
    match v {
        JsonData::Null => "null"@,
        JsonData::Bool(b) => if b {
            "true"@
        } else {
            "false"@
        },
        JsonData::NumLong(n) => dec_int(n as int),
        JsonData::NumDouble(_, t) => t,
        JsonData::Str(s) => seq!['"'] + esc_str(s) + seq!['"'],
        JsonData::Arr(a) => if a.len() == 0 {
            seq!['[', ']']
        } else {
            seq!['['] + render_items(a, p, d) + close_indent(p, d) + seq![']']
        },
        JsonData::Obj(o) => if o.len() == 0 {
            seq!['{', '}']
        } else {
            seq!['{'] + render_entries(o, p, d) + close_indent(p, d) + seq!['}']
        },
    }
}

/// The items of a non-empty array, comma-separated, each preceded by its
/// opening whitespace.
pub open spec fn render_items(a: Seq<JsonData>, p: bool, d: nat) -> Seq<char>
    decreases a, 0nat,
{
    if a.len() == 0 {
        Seq::empty()
    } else if a.len() == 1 {
        item_open(p, d) + render(a[0], p, d + 1)
    } else {
        item_open(p, d) + render(a[0], p, d + 1) + seq![','] + render_items(a.skip(1), p, d)
    }
}

/// The entries of a non-empty object: quoted escaped key, separator, value.
pub open spec fn render_entries(o: Seq<(Seq<char>, JsonData)>, p: bool, d: nat) -> Seq<char>
    decreases o, 0nat,
{
    if o.len() == 0 {
        Seq::empty()
    } else if o.len() == 1 {
        item_open(p, d) + seq!['"'] + esc_str(o[0].0) + seq!['"'] + kv_sep(p) + render(
            o[0].1,
            p,
            d + 1,
        )
    } else {
        item_open(p, d) + seq!['"'] + esc_str(o[0].0) + seq!['"'] + kv_sep(p) + render(
            o[0].1,
            p,
            d + 1,
        ) + seq![','] + render_entries(o.skip(1), p, d)
    }
}

proof fn lemma_render_items_take(a: Seq<JsonData>, p: bool, d: nat, i: int)
    requires
        0 < i < a.len(),
    ensures
        render_items(a, p, d) == render_items(a.take(i), p, d) + seq![','] + render_items(
            a.skip(i),
            p,
            d,
        ),
    decreases i,
{
    if i == 1 {
        assert(a.take(1).len() == 1);
        assert(a.take(1)[0] == a[0]);
        assert(render_items(a, p, d) =~= render_items(a.take(1), p, d) + seq![','] + render_items(
            a.skip(1),
            p,
            d,
        ));
    } else {
        lemma_render_items_take(a.skip(1), p, d, i - 1);
        assert(a.skip(1).take(i - 1) =~= a.take(i).skip(1));
        assert(a.skip(1).skip(i - 1) =~= a.skip(i));
        assert(a.take(i)[0] == a[0]);
        assert(render_items(a.take(i), p, d) == item_open(p, d) + render(a[0], p, d + 1)
            + seq![','] + render_items(a.take(i).skip(1), p, d));
        assert(render_items(a, p, d) =~= render_items(a.take(i), p, d) + seq![','] + render_items(
            a.skip(i),
            p,
            d,
        ));
    }
}

proof fn lemma_render_entries_take(o: Seq<(Seq<char>, JsonData)>, p: bool, d: nat, i: int)
    requires
        0 < i < o.len(),
    ensures
        render_entries(o, p, d) == render_entries(o.take(i), p, d) + seq![','] + render_entries(
            o.skip(i),
            p,
            d,
        ),
    decreases i,
{
    if i == 1 {
        assert(o.take(1).len() == 1);
        assert(o.take(1)[0] == o[0]);
        assert(render_entries(o, p, d) =~= render_entries(o.take(1), p, d) + seq![',']
            + render_entries(o.skip(1), p, d));
    } else {
        lemma_render_entries_take(o.skip(1), p, d, i - 1);
        assert(o.skip(1).take(i - 1) =~= o.take(i).skip(1));
        assert(o.skip(1).skip(i - 1) =~= o.skip(i));
        assert(o.take(i)[0] == o[0]);
        assert(render_entries(o.take(i), p, d) == item_open(p, d) + seq!['"'] + esc_str(o[0].0)
            + seq!['"'] + kv_sep(p) + render(o[0].1, p, d + 1) + seq![','] + render_entries(
            o.take(i).skip(1),
            p,
            d,
        ));
        assert(render_entries(o, p, d) =~= render_entries(o.take(i), p, d) + seq![',']
            + render_entries(o.skip(i), p, d));
    }
}

proof fn lemma_esc_str_take(s: Seq<char>, i: int)
    requires
        0 <= i < s.len(),
    ensures
        esc_str(s.take(i + 1)) == esc_str(s.take(i)) + esc_char(s[i]),
    decreases i,
{
    if i == 0 {
        assert(s.take(1).len() == 1);
        assert(s.take(1)[0] == s[0]);
        assert(s.take(1).skip(1) =~= Seq::<char>::empty());
        assert(esc_str(Seq::<char>::empty()) == Seq::<char>::empty());
        assert(s.take(0) =~= Seq::<char>::empty());
        assert(esc_str(s.take(1)) =~= esc_str(s.take(0)) + esc_char(s[0]));
    } else {
        lemma_esc_str_take(s.skip(1), i - 1);
        assert(s.skip(1).take(i) =~= s.take(i + 1).skip(1));
        assert(s.skip(1).take(i - 1) =~= s.take(i).skip(1));
        assert(s.take(i + 1)[0] == s[0]);
        assert(s.take(i)[0] == s[0]);
        assert(s.skip(1)[i - 1] == s[i]);
        assert(esc_str(s.take(i + 1)) == esc_char(s[0]) + esc_str(s.take(i + 1).skip(1)));
        assert(esc_str(s.take(i)) == esc_char(s[0]) + esc_str(s.take(i).skip(1)));
        assert(esc_str(s.take(i + 1)) =~= esc_str(s.take(i)) + esc_char(s[i]));
    }
}

/// Appends the escaped body of a string.
#[verifier::loop_isolation(false)]
fn push_escaped(out: &mut String, s: &str)
    ensures
        final(out)@ == old(out)@ + esc_str(s@),
{
    let n = s.unicode_len();
    let mut i: usize = 0;
    proof {
        assert(s@.take(0) =~= Seq::<char>::empty());
    }
    while i < n
        invariant
            i <= n,
            out@ == old(out)@ + esc_str(s@.take(i as int)),
        decreases n - i,
    {
        let c = s.get_char(i);
        let code = c as u32;
        if c == '"' {
            out.push('\\');
            out.push('"');
        } else if c == '\\' {
            out.push('\\');
            out.push('\\');
        } else if code == 8 {
            out.push('\\');
            out.push('b');
        } else if code == 9 {
            out.push('\\');
            out.push('t');
        } else if code == 10 {
            out.push('\\');
            out.push('n');
        } else if code == 12 {
            out.push('\\');
            out.push('f');
        } else if code == 13 {
            out.push('\\');
            out.push('r');
        } else if code < 32 {
            out.push('\\');
            out.push('u');
            out.push('0');
            out.push('0');
            let hi = (code / 16) as u8;
            let lo = (code % 16) as u8;
            out.push(((48 + hi)) as char);
            if lo < 10 {
                out.push((48 + lo) as char);
            } else {
                out.push((87 + lo) as char);
            }
        } else {
            out.push(c);
        }
        proof {
            lemma_esc_str_take(s@, i as int);
            assert(out@ =~= old(out)@ + esc_str(s@.take(i + 1)));
        }
        i = i + 1;
    }
    proof {
        assert(s@.take(n as int) =~= s@);
    }
}

/// Appends a newline and the indentation of level `d`.
#[verifier::loop_isolation(false)]
fn push_nl_indent(out: &mut String, d: usize)
    ensures
        final(out)@ == old(out)@ + nl_indent(d as nat),
{
    out.push('\n');
    let mut c: usize = 0;
    while c < d
        invariant
            c <= d,
            out@ == old(out)@ + nl_indent(c as nat),
        decreases d - c,
    {
        out.push(' ');
        out.push(' ');
        proof {
            assert(out@ =~= old(out)@ + nl_indent((c + 1) as nat));
        }
        c = c + 1;
    }
}

/// Appends the serialized text of `v` at nesting level `depth`.
#[verifier::loop_isolation(false)]
#[verifier::rlimit(100)]
fn push_render(out: &mut String, v: &JsonVal, p: bool, depth: usize)
    requires
        depth as nat + json_depth(*v) < usize::MAX as nat,
    ensures
        final(out)@ == old(out)@ + render(v@, p, depth as nat),
    decreases json_depth(*v), 1nat,
{
    match v {
        JsonVal::Null => {
            out.append("null");
        },
        JsonVal::Bool(b) => {
            if *b {
                out.append("true");
            } else {
                out.append("false");
            }
        },
        JsonVal::NumLong(n) => {
            push_dec_i64(out, *n);
        },
        JsonVal::NumDouble(_, t) => {
            out.append(t.as_str());
        },
        JsonVal::Str(s) => {
            out.push('"');
            push_escaped(out, s.as_str());
            out.push('"');
            proof {
                assert(out@ =~= old(out)@ + render(v@, p, depth as nat));
            }
        },
        JsonVal::Arr(a) => {
            proof {
                assert(json_depth(*v) == 1 + json_depth_list(a@));
            }
            push_render_arr(out, a, p, depth);
        },
        JsonVal::Obj(o) => {
            proof {
                assert(json_depth(*v) == 1 + json_depth_entries(o@));
            }
            push_render_obj(out, o, p, depth);
        },
    }
}

/// Appends the serialized text of an array value at nesting level `depth`.
#[verifier::loop_isolation(false)]
#[verifier::rlimit(100)]
fn push_render_arr(out: &mut String, a: &Vec<JsonVal>, p: bool, depth: usize)
    requires
        depth as nat + 1 + json_depth_list(a@) < usize::MAX as nat,
    ensures
        final(out)@ == old(out)@ + render(JsonData::Arr(json_list_view(a@)), p, depth as nat),
    decreases 1 + json_depth_list(a@), 0nat,
{
    proof {
        crate::value::lemma_json_view_list(a@);
    }
    out.push('[');
    let ghost base = old(out)@ + seq!['['];
    let mut i: usize = 0;
    while i < a.len()
        invariant
            i <= a.len(),
            i == 0 ==> out@ == base,
            i > 0 ==> out@ == base + render_items(
                json_list_view(a@).take(i as int),
                p,
                depth as nat,
            ),
        decreases a.len() - i,
    {
        proof {
            lemma_json_depth_list(a@, i as int);
        }
        if i > 0 {
            out.push(',');
        }
        if p {
            push_nl_indent(out, depth + 1);
        }
        push_render(out, &a[i], p, depth + 1);
        proof {
            lemma_push_render_items_step(a@, p, depth as nat, i as int);
        }
        i = i + 1;
    }
    if a.len() > 0 && p {
        push_nl_indent(out, depth);
    }
    out.push(']');
    proof {
        if a@.len() > 0 {
            assert(json_list_view(a@).take(a@.len() as int) =~= json_list_view(a@));
        }
        assert(out@ =~= old(out)@ + render(JsonData::Arr(json_list_view(a@)), p, depth as nat));
    }
}

/// Appends the serialized text of an object value at nesting level `depth`.
#[verifier::loop_isolation(false)]
#[verifier::rlimit(100)]
fn push_render_obj(out: &mut String, o: &Vec<(String, JsonVal)>, p: bool, depth: usize)
    requires
        depth as nat + 1 + json_depth_entries(o@) < usize::MAX as nat,
    ensures
        final(out)@ == old(out)@ + render(JsonData::Obj(json_entries_view(o@)), p, depth as nat),
    decreases 1 + json_depth_entries(o@), 0nat,
{
    proof {
        crate::value::lemma_json_view_entries(o@);
    }
    out.push('{');
    let ghost base = old(out)@ + seq!['{'];
    let mut i: usize = 0;
    while i < o.len()
        invariant
            i <= o.len(),
            i == 0 ==> out@ == base,
            i > 0 ==> out@ == base + render_entries(
                json_entries_view(o@).take(i as int),
                p,
                depth as nat,
            ),
        decreases o.len() - i,
    {
        proof {
            lemma_json_depth_entries(o@, i as int);
        }
        if i > 0 {
            out.push(',');
        }
        if p {
            push_nl_indent(out, depth + 1);
        }
        out.push('"');
        push_escaped(out, o[i].0.as_str());
        out.push('"');
        out.push(':');
        if p {
            out.push(' ');
        }
        push_render(out, &o[i].1, p, depth + 1);
        proof {
            lemma_push_render_entries_step(o@, p, depth as nat, i as int);
        }
        i = i + 1;
    }
    if o.len() > 0 && p {
        push_nl_indent(out, depth);
    }
    out.push('}');
    proof {
        if o@.len() > 0 {
            assert(json_entries_view(o@).take(o@.len() as int) =~= json_entries_view(o@));
        }
        assert(out@ =~= old(out)@ + render(JsonData::Obj(json_entries_view(o@)), p, depth as nat));
    }
}

/// The models of a vector of JSON values, elementwise.
pub open spec fn json_list_view(a: Seq<JsonVal>) -> Seq<JsonData> {
    crate::value::json_view_list(a)
}

/// The models of a vector of object entries, elementwise.
pub open spec fn json_entries_view(o: Seq<(String, JsonVal)>) -> Seq<(Seq<char>, JsonData)> {
    crate::value::json_view_entries(o)
}

proof fn lemma_push_render_items_step(a: Seq<JsonVal>, p: bool, d: nat, i: int)
    requires
        0 <= i < a.len(),
    ensures
        i == 0 ==> render_items(json_list_view(a).take(1), p, d) == item_open(p, d) + render(
            json_view(a[0]),
            p,
            d + 1,
        ),
        i > 0 ==> render_items(json_list_view(a).take(i + 1), p, d) == render_items(
            json_list_view(a).take(i),
            p,
            d,
        ) + seq![','] + item_open(p, d) + render(json_view(a[i]), p, d + 1),
{
    crate::value::lemma_json_view_list(a);
    let ja = json_list_view(a);
    if i == 0 {
        assert(ja.take(1).len() == 1);
        assert(ja.take(1)[0] == json_view(a[0]));
        assert(render_items(ja.take(1), p, d) =~= item_open(p, d) + render(
            json_view(a[0]),
            p,
            d + 1,
        ));
    } else {
        lemma_render_items_take(ja.take(i + 1), p, d, i);
        assert(ja.take(i + 1).take(i) =~= ja.take(i));
        assert(ja.take(i + 1).skip(i) =~= seq![json_view(a[i])]);
        assert(render_items(seq![json_view(a[i])], p, d) =~= item_open(p, d) + render(
            json_view(a[i]),
            p,
            d + 1,
        ));
        assert(render_items(ja.take(i + 1), p, d) =~= render_items(ja.take(i), p, d) + seq![',']
            + item_open(p, d) + render(json_view(a[i]), p, d + 1));
    }
}

proof fn lemma_push_render_entries_step(o: Seq<(String, JsonVal)>, p: bool, d: nat, i: int)
    requires
        0 <= i < o.len(),
    ensures
        i == 0 ==> render_entries(json_entries_view(o).take(1), p, d) == item_open(p, d)
            + seq!['"'] + esc_str(o[0].0@) + seq!['"'] + kv_sep(p) + render(
            json_view(o[0].1),
            p,
            d + 1,
        ),
        i > 0 ==> render_entries(json_entries_view(o).take(i + 1), p, d) == render_entries(
            json_entries_view(o).take(i),
            p,
            d,
        ) + seq![','] + item_open(p, d) + seq!['"'] + esc_str(o[i].0@) + seq!['"'] + kv_sep(p)
            + render(json_view(o[i].1), p, d + 1),
{
    crate::value::lemma_json_view_entries(o);
    let jo = json_entries_view(o);
    if i == 0 {
        assert(jo.take(1).len() == 1);
        assert(jo.take(1)[0] == (o[0].0@, json_view(o[0].1)));
        assert(render_entries(jo.take(1), p, d) =~= item_open(p, d) + seq!['"'] + esc_str(o[0].0@)
            + seq!['"'] + kv_sep(p) + render(json_view(o[0].1), p, d + 1));
    } else {
        lemma_render_entries_take(jo.take(i + 1), p, d, i);
        assert(jo.take(i + 1).take(i) =~= jo.take(i));
        assert(jo.take(i + 1).skip(i) =~= seq![(o[i].0@, json_view(o[i].1))]);
        assert(render_entries(seq![(o[i].0@, json_view(o[i].1))], p, d) =~= item_open(p, d)
            + seq!['"'] + esc_str(o[i].0@) + seq!['"'] + kv_sep(p) + render(
            json_view(o[i].1),
            p,
            d + 1,
        ));
        assert(render_entries(jo.take(i + 1), p, d) =~= render_entries(jo.take(i), p, d)
            + seq![','] + item_open(p, d) + seq!['"'] + esc_str(o[i].0@) + seq!['"'] + kv_sep(p)
            + render(json_view(o[i].1), p, d + 1));
    }
}

/// The compact serialized text of one JSON value.
pub fn to_json_string(v: &JsonVal) -> (r: String)
    requires
        json_depth(*v) < usize::MAX as nat,
    ensures
        r@ == render(v@, false, 0),
{
    let mut out = String::new();
    push_render(&mut out, v, false, 0);
    out
}

/// The indented serialized text of one JSON value: two spaces per level.
pub fn to_json_string_pretty(v: &JsonVal) -> (r: String)
    requires
        json_depth(*v) < usize::MAX as nat,
    ensures
        r@ == render(v@, true, 0),
{
    let mut out = String::new();
    push_render(&mut out, v, true, 0);
    out
}

} // verus!
