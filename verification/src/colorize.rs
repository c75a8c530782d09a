//! Terminal colorization of serialized JSON text: a single-pass lexical
//! scanner classifies the characters into spans, and each span is wrapped
//! in a display style.  Every original character is preserved in order; the
//! styling itself comes from an outside styling library and is applied only
//! when that library finds coloring enabled.
use vstd::prelude::*;
use vstd::string::StrSliceExecFns;
use vstd::string::StringExecFns;

use colored::Colorize;

verus! {

/// The classification of one scanned span.
#[derive(Debug, PartialEq, Eq, Clone, Copy)]
pub enum SpanKind {
    /// A string delimiter or a character inside a string.
    StrText,
    /// An unconsumed escape character inside a string.
    StrEscape,
    /// The key-value separator.
    Colon,
    /// The item separator.
    Comma,
    /// Structural punctuation: braces and brackets.
    Bracket,
    /// A numeric literal.
    Number,
    /// The keyword `true` or `false`.
    BoolWord,
    /// The keyword `null`.
    NullWord,
    /// Anything else, emitted unstyled.
    Other,
}

pub open spec fn is_digit(c: char) -> bool {
    48 <= c as u32 <= 57
}

/// A character that opens a numeric literal outside a string.
pub open spec fn is_num_start(c: char) -> bool {
    is_digit(c) || c == '.' || c == '-'
}

/// A character that a numeric literal greedily consumes.
pub open spec fn is_num_cont(c: char) -> bool {
    is_digit(c) || c == '.' || c == 'e' || c == 'E' || c == '+' || c == '-'
}

/// An ASCII letter; keyword runs consume these.
pub open spec fn is_alpha(c: char) -> bool {
    (97 <= c as u32 <= 122) || (65 <= c as u32 <= 90)
}

/// The length of the longest prefix of numeric-literal characters.
pub open spec fn num_run_len(s: Seq<char>) -> nat
    decreases s.len(),
{
    if s.len() > 0 && is_num_cont(s[0]) {
        1 + num_run_len(s.skip(1))
    } else {
        0
    }
}

/// The length of the longest prefix of ASCII letters.
pub open spec fn alpha_run_len(s: Seq<char>) -> nat
    decreases s.len(),
{
    if s.len() > 0 && is_alpha(s[0]) {
        1 + alpha_run_len(s.skip(1))
    } else {
        0
    }
}

/// The scanner: walks the text with the string-literal state (inside a
/// string, and whether the previous character was an unconsumed escape)
/// and yields the classified spans in order.  Outside strings a numeric or
/// alphabetic character opens a greedy one-token span.
pub open spec fn scan(s: Seq<char>, in_str: bool, esc: bool) -> Seq<(SpanKind, Seq<char>)>
    decreases s.len(),
    via scan_decreases
{
    if s.len() == 0 {
        Seq::empty()
    } else {
        let c = s[0];
        if c == '"' && !esc {
            seq![(SpanKind::StrText, seq![c])] + scan(s.skip(1), !in_str, false)
        } else if c == '\\' && in_str && !esc {
            seq![(SpanKind::StrEscape, seq![c])] + scan(s.skip(1), in_str, true)
        } else if in_str {
            seq![(SpanKind::StrText, seq![c])] + scan(s.skip(1), in_str, false)
        } else if c == ':' {
            seq![(SpanKind::Colon, seq![c])] + scan(s.skip(1), false, false)
        } else if c == ',' {
            seq![(SpanKind::Comma, seq![c])] + scan(s.skip(1), false, false)
        } else if c == '{' || c == '}' || c == '[' || c == ']' {
            seq![(SpanKind::Bracket, seq![c])] + scan(s.skip(1), false, false)
        } else if is_num_start(c) {
            let k = 1 + num_run_len(s.skip(1));
            seq![(SpanKind::Number, s.take(k as int))] + scan(s.skip(k as int), false, false)
        } else if is_alpha(c) {
            let k = 1 + alpha_run_len(s.skip(1));
            let w = s.take(k as int);
            let kind = if w == "true"@ || w == "false"@ {
                SpanKind::BoolWord
            } else if w == "null"@ {
                SpanKind::NullWord
            } else {
                SpanKind::Other
            };
            seq![(kind, w)] + scan(s.skip(k as int), false, false)
        } else {
            seq![(SpanKind::Other, seq![c])] + scan(s.skip(1), false, false)
        }
    }
}

#[via_fn]
proof fn scan_decreases(s: Seq<char>, in_str: bool, esc: bool) {
    if s.len() > 0 {
        lemma_num_run_len_bound(s.skip(1));
        lemma_alpha_run_len_bound(s.skip(1));
    }
}

/// The texts of a span sequence, in order.
pub open spec fn span_texts(spans: Seq<(SpanKind, Seq<char>)>) -> Seq<Seq<char>> {
    spans.map_values(|sp: (SpanKind, Seq<char>)| sp.1)
}

/// Chars preserved: the scanned spans concatenate back to the input text.
pub proof fn lemma_scan_concat(s: Seq<char>, in_str: bool, esc: bool)
    ensures
        span_texts(scan(s, in_str, esc)).flatten() == s,
    decreases s.len(),
{
    broadcast use vstd::seq::Seq::lemma_flatten_push;

    if s.len() == 0 {
        assert(span_texts(scan(s, in_str, esc)) =~= Seq::<Seq<char>>::empty());
        assert(span_texts(scan(s, in_str, esc)).flatten() =~= s);
    } else {
        let c = s[0];
        let spans = scan(s, in_str, esc);
        assert(s.take(1) =~= seq![c]);
        if c == '"' && !esc {
            lemma_scan_concat(s.skip(1), !in_str, false);
            lemma_scan_cons(s, (SpanKind::StrText, seq![c]), scan(s.skip(1), !in_str, false), 1);
        } else if c == '\\' && in_str && !esc {
            lemma_scan_concat(s.skip(1), in_str, true);
            lemma_scan_cons(s, (SpanKind::StrEscape, seq![c]), scan(s.skip(1), in_str, true), 1);
        } else if in_str {
            lemma_scan_concat(s.skip(1), in_str, false);
            lemma_scan_cons(s, (SpanKind::StrText, seq![c]), scan(s.skip(1), in_str, false), 1);
        } else if c == ':' || c == ',' || c == '{' || c == '}' || c == '[' || c == ']' {
            lemma_scan_concat(s.skip(1), false, false);
            lemma_scan_cons(s, spans[0], scan(s.skip(1), false, false), 1);
        } else if is_num_start(c) {
            let k = 1 + num_run_len(s.skip(1));
            lemma_num_run_len_bound(s.skip(1));
            lemma_scan_concat(s.skip(k as int), false, false);
            lemma_scan_cons(s, (SpanKind::Number, s.take(k as int)), scan(s.skip(k as int), false, false), k as int);
        } else if is_alpha(c) {
            let k = 1 + alpha_run_len(s.skip(1));
            lemma_alpha_run_len_bound(s.skip(1));
            lemma_scan_concat(s.skip(k as int), false, false);
            lemma_scan_cons(s, spans[0], scan(s.skip(k as int), false, false), k as int);
        } else {
            lemma_scan_concat(s.skip(1), false, false);
            lemma_scan_cons(s, (SpanKind::Other, seq![c]), scan(s.skip(1), false, false), 1);
        }
    }
}

proof fn lemma_num_run_len_bound(s: Seq<char>)
    ensures
        num_run_len(s) <= s.len(),
    decreases s.len(),
{
    if s.len() > 0 && is_num_cont(s[0]) {
        lemma_num_run_len_bound(s.skip(1));
    }
}

proof fn lemma_alpha_run_len_bound(s: Seq<char>)
    ensures
        alpha_run_len(s) <= s.len(),
    decreases s.len(),
{
    if s.len() > 0 && is_alpha(s[0]) {
        lemma_alpha_run_len_bound(s.skip(1));
    }
}

/// A cons-shaped span list concatenates to the head text plus the rest.
proof fn lemma_scan_cons(
    s: Seq<char>,
    head: (SpanKind, Seq<char>),
    rest: Seq<(SpanKind, Seq<char>)>,
    k: int,
)
    requires
        0 < k <= s.len(),
        head.1 == s.take(k),
        span_texts(rest).flatten() == s.skip(k),
    ensures
        span_texts(seq![head] + rest).flatten() == s,
{
    let all = seq![head] + rest;
    assert(span_texts(all) =~= seq![head.1] + span_texts(rest));
    assert(span_texts(all).first() == head.1);
    assert(span_texts(all).drop_first() =~= span_texts(rest));
    assert(span_texts(all).flatten() == head.1 + span_texts(rest).flatten());
    assert(s.take(k) + s.skip(k) =~= s);
}

/// Exactly `m` leading characters continue a numeric literal.
proof fn lemma_num_run_len_exact(s: Seq<char>, m: int)
    requires
        0 <= m <= s.len(),
        forall|i: int| 0 <= i < m ==> is_num_cont(s[i]),
        m == s.len() || !is_num_cont(s[m]),
    ensures
        num_run_len(s) == m,
    decreases m,
{
    if m > 0 {
        assert(forall|i: int| 0 <= i < m - 1 ==> s.skip(1)[i] == s[i + 1]);
        lemma_num_run_len_exact(s.skip(1), m - 1);
    }
}

/// Exactly `m` leading characters are letters.
proof fn lemma_alpha_run_len_exact(s: Seq<char>, m: int)
    requires
        0 <= m <= s.len(),
        forall|i: int| 0 <= i < m ==> is_alpha(s[i]),
        m == s.len() || !is_alpha(s[m]),
    ensures
        alpha_run_len(s) == m,
    decreases m,
{
    if m > 0 {
        assert(forall|i: int| 0 <= i < m - 1 ==> s.skip(1)[i] == s[i + 1]);
        lemma_alpha_run_len_exact(s.skip(1), m - 1);
    }
}

/// What the styling of one span may look like: either the text itself, or
/// the text wrapped in the style's opening sequence and the reset sequence.
pub open spec fn styled_one(kind: SpanKind, text: Seq<char>, part: Seq<char>) -> bool {
    match kind {
        SpanKind::StrText => part == text || part == "\u{1b}[32m"@ + text + "\u{1b}[0m"@,
        SpanKind::StrEscape => part == text || part == "\u{1b}[33m"@ + text + "\u{1b}[0m"@,
        SpanKind::Colon => part == text || part == "\u{1b}[36m"@ + text + "\u{1b}[0m"@,
        SpanKind::Comma => part == text || part == "\u{1b}[37m"@ + text + "\u{1b}[0m"@,
        SpanKind::Bracket => part == text || part == "\u{1b}[34m"@ + text + "\u{1b}[0m"@,
        SpanKind::Number => part == text || part == "\u{1b}[33m"@ + text + "\u{1b}[0m"@,
        SpanKind::BoolWord => part == text || part == "\u{1b}[31m"@ + text + "\u{1b}[0m"@,
        SpanKind::NullWord => part == text || part == "\u{1b}[35m"@ + text + "\u{1b}[0m"@,
        SpanKind::Other => part == text,
    }
}

/// Each part styles the span at its position.
pub open spec fn styled_parts(spans: Seq<(SpanKind, Seq<char>)>, parts: Seq<Seq<char>>) -> bool {
    &&& parts.len() == spans.len()
    &&& forall|i: int| 0 <= i < spans.len() ==> styled_one(spans[i].0, spans[i].1, parts[i])
}

/// Relies on the styling library's green foreground: the display form of a
/// green-styled one-character string is the character unchanged, or the
/// character between `ESC [32m` and `ESC [0m`.
#[verifier::external_body]
fn green_char(c: char) -> (r: String)
    ensures
        r@ == seq![c] || r@ == "\u{1b}[32m"@ + seq![c] + "\u{1b}[0m"@,
{
    let mut t = String::new();
    t.push(c);
    format!("{}", t.green())
}

/// Relies on the styling library's cyan foreground, as `green_char` does on
/// green.
#[verifier::external_body]
fn cyan_char(c: char) -> (r: String)
    ensures
        r@ == seq![c] || r@ == "\u{1b}[36m"@ + seq![c] + "\u{1b}[0m"@,
{
    let mut t = String::new();
    t.push(c);
    format!("{}", t.cyan())
}

/// Relies on the styling library's white foreground, as `green_char` does
/// on green.
#[verifier::external_body]
fn white_char(c: char) -> (r: String)
    ensures
        r@ == seq![c] || r@ == "\u{1b}[37m"@ + seq![c] + "\u{1b}[0m"@,
{
    let mut t = String::new();
    t.push(c);
    format!("{}", t.white())
}

/// Relies on the styling library's blue foreground, as `green_char` does on
/// green.
#[verifier::external_body]
fn blue_char(c: char) -> (r: String)
    ensures
        r@ == seq![c] || r@ == "\u{1b}[34m"@ + seq![c] + "\u{1b}[0m"@,
{
    let mut t = String::new();
    t.push(c);
    format!("{}", t.blue())
}

/// Relies on the styling library's yellow foreground.  The input must hold
/// no escape character, so the library's rewriting of embedded reset
/// sequences cannot fire and the display form is the text unchanged or the
/// text between `ESC [33m` and `ESC [0m`.
#[verifier::external_body]
fn yellow_str(s: &str) -> (r: String)
    requires
        forall|i: int| 0 <= i < s@.len() ==> s@[i] != '\u{1b}',
    ensures
        r@ == s@ || r@ == "\u{1b}[33m"@ + s@ + "\u{1b}[0m"@,
{
    format!("{}", s.yellow())
}

/// Relies on the styling library's red foreground, under the same
/// no-escape-character condition as `yellow_str`.
#[verifier::external_body]
fn red_str(s: &str) -> (r: String)
    requires
        forall|i: int| 0 <= i < s@.len() ==> s@[i] != '\u{1b}',
    ensures
        r@ == s@ || r@ == "\u{1b}[31m"@ + s@ + "\u{1b}[0m"@,
{
    format!("{}", s.red())
}

/// Relies on the styling library's magenta foreground, under the same
/// no-escape-character condition as `yellow_str`.
#[verifier::external_body]
fn purple_str(s: &str) -> (r: String)
    requires
        forall|i: int| 0 <= i < s@.len() ==> s@[i] != '\u{1b}',
    ensures
        r@ == s@ || r@ == "\u{1b}[35m"@ + s@ + "\u{1b}[0m"@,
{
    format!("{}", s.purple())
}

/// Whether two string slices hold the same characters.
#[verifier::loop_isolation(false)]
fn str_eq(a: &str, b: &str) -> (r: bool)
    ensures
        r == (a@ == b@),
{
    let na = a.unicode_len();
    let nb = b.unicode_len();
    if na != nb {
        return false;
    }
    let mut i: usize = 0;
    while i < na
        invariant
            i <= na,
            forall|j: int| 0 <= j < i ==> a@[j] == b@[j],
        decreases na - i,
    {
        if a.get_char(i) != b.get_char(i) {
            return false;
        }
        i = i + 1;
    }
    proof {
        assert(a@ =~= b@);
    }
    true
}

/// The colorizer's guarantee: the output is the concatenation, over the
/// scanner's spans of the original text, of each span's text either
/// unchanged or wrapped in its display style.
pub open spec fn colorized_form(orig: Seq<char>, out: Seq<char>) -> bool {
    exists|parts: Seq<Seq<char>>|
        styled_parts(scan(orig, false, false), parts) && out == parts.flatten()
}

/// Styles already-serialized JSON text for a terminal.  The result is the
/// concatenation, over the scanner's spans, of each span's text either
/// unchanged or wrapped in its display style, so every original character
/// is preserved in order (`lemma_scan_concat`).
#[verifier::loop_isolation(false)]
#[verifier::rlimit(100)]
pub fn colorize_json(s: &str) -> (r: String)
    ensures
        colorized_form(s@, r@),
{
    broadcast use vstd::seq::Seq::lemma_flatten_push;

    let n = s.unicode_len();
    let mut r = String::new();
    let mut pos: usize = 0;
    let mut in_str = false;
    let mut esc = false;
    let ghost mut spans_done: Seq<(SpanKind, Seq<char>)> = Seq::empty();
    let ghost mut parts: Seq<Seq<char>> = Seq::empty();
    proof {
        assert(s@.skip(0) =~= s@);
        assert(span_texts(spans_done) =~= Seq::<Seq<char>>::empty());
        assert(parts.flatten() =~= Seq::<char>::empty());
    }
    while pos < n
        invariant
            pos <= n,
            scan(s@, false, false) == spans_done + scan(s@.skip(pos as int), in_str, esc),
            styled_parts(spans_done, parts),
            r@ == parts.flatten(),
        decreases n - pos,
    {
        let c = s.get_char(pos);
        let code = c as u32;
        let ghost rest = s@.skip(pos as int);
        let ghost prev_in = in_str;
        let ghost prev_esc = esc;
        proof {
            assert(rest[0] == s@[pos as int]);
            assert(rest.skip(1) =~= s@.skip(pos + 1));
        }
        if c == '"' && !esc {
            let styled = green_char(c);
            r.append(styled.as_str());
            in_str = !in_str;
            proof {
                spans_done = spans_done.push((SpanKind::StrText, seq![c]));
                parts = parts.push(styled@);
                assert(scan(rest, prev_in, prev_esc) =~= seq![(SpanKind::StrText, seq![c])]
                    + scan(rest.skip(1), !prev_in, false));
            }
            pos = pos + 1;
        } else if c == '\\' && in_str && !esc {
            let mut t = String::new();
            t.push(c);
            let styled = yellow_str(t.as_str());
            r.append(styled.as_str());
            esc = true;
            proof {
                spans_done = spans_done.push((SpanKind::StrEscape, seq![c]));
                parts = parts.push(styled@);
                assert(scan(rest, prev_in, prev_esc) =~= seq![(SpanKind::StrEscape, seq![c])]
                    + scan(rest.skip(1), prev_in, true));
            }
            pos = pos + 1;
        } else if in_str {
            let styled = green_char(c);
            r.append(styled.as_str());
            esc = false;
            proof {
                spans_done = spans_done.push((SpanKind::StrText, seq![c]));
                parts = parts.push(styled@);
                assert(scan(rest, prev_in, prev_esc) =~= seq![(SpanKind::StrText, seq![c])]
                    + scan(rest.skip(1), prev_in, false));
            }
            pos = pos + 1;
        } else if c == ':' {
            let styled = cyan_char(c);
            r.append(styled.as_str());
            esc = false;
            proof {
                spans_done = spans_done.push((SpanKind::Colon, seq![c]));
                parts = parts.push(styled@);
                assert(scan(rest, prev_in, prev_esc) =~= seq![(SpanKind::Colon, seq![c])]
                    + scan(rest.skip(1), false, false));
            }
            pos = pos + 1;
        } else if c == ',' {
            let styled = white_char(c);
            r.append(styled.as_str());
            esc = false;
            proof {
                spans_done = spans_done.push((SpanKind::Comma, seq![c]));
                parts = parts.push(styled@);
                assert(scan(rest, prev_in, prev_esc) =~= seq![(SpanKind::Comma, seq![c])]
                    + scan(rest.skip(1), false, false));
            }
            pos = pos + 1;
        } else if c == '{' || c == '}' || c == '[' || c == ']' {
            let styled = blue_char(c);
            r.append(styled.as_str());
            esc = false;
            proof {
                spans_done = spans_done.push((SpanKind::Bracket, seq![c]));
                parts = parts.push(styled@);
                assert(scan(rest, prev_in, prev_esc) =~= seq![(SpanKind::Bracket, seq![c])]
                    + scan(rest.skip(1), false, false));
            }
            pos = pos + 1;
        } else if (48 <= code && code <= 57) || c == '.' || c == '-' {
            let mut j: usize = pos + 1;
            while j < n
                invariant
                    pos < j <= n,
                    forall|jj: int| pos < jj < j ==> is_num_cont(s@[jj]),
                decreases n - j,
            {
                let d = s.get_char(j);
                let dc = d as u32;
                if (48 <= dc && dc <= 57) || d == '.' || d == 'e' || d == 'E' || d == '+' || d
                    == '-' {
                    j = j + 1;
                } else {
                    break ;
                }
            }
            proof {
                assert(j == n || !is_num_cont(s@[j as int]));
                assert(forall|i: int| 0 <= i < j - pos - 1 ==> rest.skip(1)[i] == s@[pos + 1 + i]);
                lemma_num_run_len_exact(rest.skip(1), j - pos - 1);
                assert(1 + num_run_len(rest.skip(1)) == j - pos);
            }
            let tok = s.substring_char(pos, j);
            proof {
                assert(tok@ =~= rest.take((j - pos) as int));
                assert forall|i: int| 0 <= i < tok@.len() implies tok@[i] != '\u{1b}' by {
                    assert(tok@[i] == s@[pos + i]);
                    if i == 0 {
                        assert(is_num_start(tok@[0]));
                    } else {
                        assert(is_num_cont(s@[pos + i]));
                    }
                }
            }
            let styled = yellow_str(tok);
            r.append(styled.as_str());
            esc = false;
            proof {
                assert(rest.skip((j - pos) as int) =~= s@.skip(j as int));
                spans_done = spans_done.push((SpanKind::Number, tok@));
                parts = parts.push(styled@);
                assert(scan(rest, prev_in, prev_esc) =~= seq![(SpanKind::Number, tok@)]
                    + scan(rest.skip((j - pos) as int), false, false));
            }
            pos = j;
        } else if (97 <= code && code <= 122) || (65 <= code && code <= 90) {
            let mut j: usize = pos + 1;
            while j < n
                invariant
                    pos < j <= n,
                    forall|jj: int| pos < jj < j ==> is_alpha(s@[jj]),
                decreases n - j,
            {
                let d = s.get_char(j);
                let dc = d as u32;
                if (97 <= dc && dc <= 122) || (65 <= dc && dc <= 90) {
                    j = j + 1;
                } else {
                    break ;
                }
            }
            proof {
                assert(j == n || !is_alpha(s@[j as int]));
                assert(forall|i: int| 0 <= i < j - pos - 1 ==> rest.skip(1)[i] == s@[pos + 1 + i]);
                lemma_alpha_run_len_exact(rest.skip(1), j - pos - 1);
                assert(1 + alpha_run_len(rest.skip(1)) == j - pos);
            }
            let tok = s.substring_char(pos, j);
            proof {
                assert(tok@ =~= rest.take((j - pos) as int));
                assert forall|i: int| 0 <= i < tok@.len() implies tok@[i] != '\u{1b}' by {
                    assert(tok@[i] == s@[pos + i]);
                    if i == 0 {
                        assert(is_alpha(tok@[0]));
                    } else {
                        assert(is_alpha(s@[pos + i]));
                    }
                }
            }
            let is_bool = str_eq(tok, "true") || str_eq(tok, "false");
            let is_null = str_eq(tok, "null");
            let styled = if is_bool {
                red_str(tok)
            } else if is_null {
                purple_str(tok)
            } else {
                String::from_str(tok)
            };
            r.append(styled.as_str());
            esc = false;
            proof {
                let kind = if tok@ == "true"@ || tok@ == "false"@ {
                    SpanKind::BoolWord
                } else if tok@ == "null"@ {
                    SpanKind::NullWord
                } else {
                    SpanKind::Other
                };
                assert(rest.skip((j - pos) as int) =~= s@.skip(j as int));
                spans_done = spans_done.push((kind, tok@));
                parts = parts.push(styled@);
                assert(scan(rest, prev_in, prev_esc) =~= seq![(kind, tok@)] + scan(
                    rest.skip((j - pos) as int),
                    false,
                    false,
                ));
            }
            pos = j;
        } else {
            let mut t = String::new();
            t.push(c);
            r.append(t.as_str());
            esc = false;
            proof {
                spans_done = spans_done.push((SpanKind::Other, seq![c]));
                parts = parts.push(t@);
                assert(scan(rest, prev_in, prev_esc) =~= seq![(SpanKind::Other, seq![c])]
                    + scan(rest.skip(1), false, false));
            }
            pos = pos + 1;
        }
        proof {
            assert(scan(s@, false, false) =~= spans_done + scan(s@.skip(pos as int), in_str, esc));
        }
    }
    proof {
        assert(s@.skip(n as int) =~= Seq::<char>::empty());
        assert(scan(s@, false, false) =~= spans_done);
    }
    r
}

} // verus!
