//! A from-scratch binary-to-text encoder: standard base64 with `=` padding
//! and no line wrapping, matching the canonical non-URL-safe alphabet
//! byte-for-byte.
use vstd::prelude::*;
use vstd::string::StringExecFns;

verus! {

/// The character of the standard alphabet for a sextet value below 64:
/// `A-Z`, `a-z`, `0-9`, `+`, `/`.
pub open spec fn b64_char(n: int) -> char {
    if n < 26 {
        (65 + n) as char
    } else if n < 52 {
        (97 + (n - 26)) as char
    } else if n < 62 {
        (48 + (n - 52)) as char
    } else if n == 62 {
        '+'
    } else {
        '/'
    }
}

/// The sextet value of an alphabet character, the inverse of `b64_char`.
pub open spec fn b64_val(c: char) -> int {
    let n = c as int;
    if 65 <= n <= 90 {
        n - 65
    } else if 97 <= n <= 122 {
        n - 97 + 26
    } else if 48 <= n <= 57 {
        n - 48 + 52
    } else if c == '+' {
        62
    } else {
        63
    }
}

pub proof fn lemma_b64_char_val(n: int)
    requires
        0 <= n < 64,
    ensures
        b64_val(b64_char(n)) == n,
        b64_char(n) != '=',
{
}

/// The four characters encoding one group, where `k` of the three bytes
/// (1, 2 or 3) are real input and the rest are zero padding.
pub open spec fn b64_group(b0: u8, b1: u8, b2: u8, k: int) -> Seq<char> {
    seq![
        b64_char(b0 as int / 4),
        b64_char((b0 as int % 4) * 16 + b1 as int / 16),
        if k > 1 {
            b64_char((b1 as int % 16) * 4 + b2 as int / 64)
        } else {
            '='
        },
        if k > 2 {
            b64_char(b2 as int % 64)
        } else {
            '='
        },
    ]
}

/// The full base64 text of a byte sequence: groups of three bytes from the
/// front, a shorter final group padded with `=`.
pub open spec fn b64_text(s: Seq<u8>) -> Seq<char>
    decreases s.len(),
{
    if s.len() == 0 {
        Seq::empty()
    } else if s.len() == 1 {
        b64_group(s[0], 0, 0, 1)
    } else if s.len() == 2 {
        b64_group(s[0], s[1], 0, 2)
    } else {
        b64_group(s[0], s[1], s[2], 3) + b64_text(s.skip(3))
    }
}

/// What a standard base64 decoder yields from encoded text: each group of
/// four characters gives three bytes, or fewer in a final padded group.
pub open spec fn b64_decode(t: Seq<char>) -> Seq<u8>
    decreases t.len(),
{
    if t.len() < 4 {
        Seq::empty()
    } else {
        let v0 = b64_val(t[0]);
        let v1 = b64_val(t[1]);
        let v2 = b64_val(t[2]);
        let v3 = b64_val(t[3]);
        let rest = if t.len() == 4 {
            Seq::<u8>::empty()
        } else {
            b64_decode(t.skip(4))
        };
        if t[2] == '=' {
            seq![(v0 * 4 + v1 / 16) as u8] + rest
        } else if t[3] == '=' {
            seq![(v0 * 4 + v1 / 16) as u8, ((v1 % 16) * 16 + v2 / 4) as u8] + rest
        } else {
            seq![
                (v0 * 4 + v1 / 16) as u8,
                ((v1 % 16) * 16 + v2 / 4) as u8,
                ((v2 % 4) * 64 + v3) as u8,
            ] + rest
        }
    }
}

/// Decoding one encoded group gives back its bytes.
proof fn lemma_group_roundtrip(b0: u8, b1: u8, b2: u8, k: int)
    requires
        1 <= k <= 3,
        k <= 1 ==> b1 == 0,
        k <= 2 ==> b2 == 0,
    ensures
        k == 1 ==> b64_decode(b64_group(b0, b1, b2, 1)) == seq![b0],
        k == 2 ==> b64_decode(b64_group(b0, b1, b2, 2)) == seq![b0, b1],
        k == 3 ==> b64_decode(b64_group(b0, b1, b2, 3)) == seq![b0, b1, b2],
{
    let s0 = b0 as int / 4;
    let s1 = (b0 as int % 4) * 16 + b1 as int / 16;
    let s2 = (b1 as int % 16) * 4 + b2 as int / 64;
    let s3 = b2 as int % 64;
    lemma_b64_char_val(s0);
    lemma_b64_char_val(s1);
    lemma_b64_char_val(s2);
    lemma_b64_char_val(s3);
    assert(s0 * 4 + s1 / 16 == b0 as int);
    assert((s1 % 16) * 16 + s2 / 4 == b1 as int) by (nonlinear_arith)
        requires
            s1 == (b0 as int % 4) * 16 + b1 as int / 16,
            s2 == (b1 as int % 16) * 4 + b2 as int / 64,
            0 <= b1 < 256,
            0 <= b2 < 256,
            0 <= b0 < 256,
    ;
    assert((s2 % 4) * 64 + s3 == b2 as int) by (nonlinear_arith)
        requires
            s2 == (b1 as int % 16) * 4 + b2 as int / 64,
            s3 == b2 as int % 64,
            0 <= b1 < 256,
            0 <= b2 < 256,
    ;
    if k == 1 {
        assert(b64_decode(b64_group(b0, b1, b2, 1)) =~= seq![b0]);
    } else if k == 2 {
        assert(b64_decode(b64_group(b0, b1, b2, 2)) =~= seq![b0, b1]);
    } else {
        assert(b64_decode(b64_group(b0, b1, b2, 3)) =~= seq![b0, b1, b2]);
    }
}

/// Round trip: a standard base64 decoder applied to the encoder's output
/// yields the input bytes exactly, for every byte sequence.
pub proof fn lemma_b64_roundtrip(s: Seq<u8>)
    ensures
        b64_decode(b64_text(s)) == s,
    decreases s.len(),
{
    if s.len() == 0 {
        assert(b64_decode(b64_text(s)) =~= s);
    } else if s.len() == 1 {
        lemma_group_roundtrip(s[0], 0, 0, 1);
        assert(b64_decode(b64_text(s)) =~= s);
    } else if s.len() == 2 {
        lemma_group_roundtrip(s[0], s[1], 0, 2);
        assert(b64_decode(b64_text(s)) =~= s);
    } else {
        lemma_b64_roundtrip(s.skip(3));
        lemma_group_roundtrip(s[0], s[1], s[2], 3);
        let g = b64_group(s[0], s[1], s[2], 3);
        let t = b64_text(s);
        assert(t == g + b64_text(s.skip(3)));
        lemma_b64_char_val((s[1] as int % 16) * 4 + s[2] as int / 64);
        lemma_b64_char_val(s[2] as int % 64);
        if s.len() == 3 {
            assert(t =~= g);
            assert(b64_decode(t) =~= s);
        } else {
            assert(t.len() > 4);
            assert(t.skip(4) =~= b64_text(s.skip(3)));
            assert(b64_decode(t) =~= seq![s[0], s[1], s[2]] + b64_decode(b64_text(s.skip(3))));
            assert(b64_decode(t) =~= s);
        }
    }
}

/// Prefixes whose length is a multiple of three encode independently of
/// what follows them.
proof fn lemma_b64_text_append(a: Seq<u8>, b: Seq<u8>)
    requires
        a.len() % 3 == 0,
    ensures
        b64_text(a + b) == b64_text(a) + b64_text(b),
    decreases a.len(),
{
    if a.len() == 0 {
        assert(a + b =~= b);
        assert(b64_text(a) + b64_text(b) =~= b64_text(b));
    } else {
        assert(a.len() >= 3);
        lemma_b64_text_append(a.skip(3), b);
        let ab = a + b;
        assert(ab.skip(3) =~= a.skip(3) + b);
        if b.len() == 0 {
            assert(ab =~= a);
            assert(b64_text(a) + b64_text(b) =~= b64_text(a));
        } else {
            assert(ab.len() > 3);
            assert(b64_text(ab) == b64_group(ab[0], ab[1], ab[2], 3) + b64_text(ab.skip(3)));
            assert(b64_text(a) == b64_group(a[0], a[1], a[2], 3) + b64_text(a.skip(3)));
            assert(b64_text(ab) =~= b64_text(a) + b64_text(b));
        }
    }
}

/// One character of the alphabet, by sextet value.
fn b64_char_exec(n: u8) -> (c: char)
    requires
        n < 64,
    ensures
        c == b64_char(n as int),
{
    if n < 26 {
        (65 + n) as char
    } else if n < 52 {
        (97 + (n - 26)) as char
    } else if n < 62 {
        (48 + (n - 52)) as char
    } else if n == 62 {
        '+'
    } else {
        '/'
    }
}

/// Standard base64 of a byte slice: full triplets give four characters; a
/// final group of one byte gives two characters and `==`; of two bytes,
/// three characters and `=`; empty input gives the empty string.
#[verifier::rlimit(60)]
pub fn base64_encode(bytes: &[u8]) -> (r: String)
    ensures
        r@ == b64_text(bytes@),
        r@.len() == 4 * ((bytes@.len() + 2) / 3),
{
    let mut r = String::new();
    let mut i: usize = 0;
    proof {
        assert(bytes@.take(0) =~= Seq::<u8>::empty());
    }
    while bytes.len() - i >= 3
        invariant
            i <= bytes.len(),
            i % 3 == 0,
            r@ == b64_text(bytes@.take(i as int)),
            r@.len() == 4 * ((i + 2) / 3),
        decreases bytes.len() - i,
    {
        let b0 = bytes[i];
        let b1 = bytes[i + 1];
        let b2 = bytes[i + 2];
        r.push(b64_char_exec(b0 / 4));
        r.push(b64_char_exec(b0 % 4 * 16 + b1 / 16));
        r.push(b64_char_exec(b1 % 16 * 4 + b2 / 64));
        r.push(b64_char_exec(b2 % 64));
        proof {
            reveal_with_fuel(b64_text, 2);
            lemma_b64_text_append(bytes@.take(i as int), seq![b0, b1, b2]);
            assert(bytes@.take(i as int) + seq![b0, b1, b2] =~= bytes@.take(i + 3));
            assert(b64_text(seq![b0, b1, b2]) =~= b64_group(b0, b1, b2, 3));
            assert(r@ =~= b64_text(bytes@.take(i + 3)));
        }
        i = i + 3;
    }
    if i < bytes.len() {
        let b0 = bytes[i];
        r.push(b64_char_exec(b0 / 4));
        if i + 1 < bytes.len() {
            let b1 = bytes[i + 1];
            r.push(b64_char_exec(b0 % 4 * 16 + b1 / 16));
            r.push(b64_char_exec(b1 % 16 * 4));
            r.push('=');
            proof {
                reveal_with_fuel(b64_text, 2);
                lemma_b64_text_append(bytes@.take(i as int), seq![b0, b1]);
                assert(bytes@.take(i as int) + seq![b0, b1] =~= bytes@);
                assert(b64_text(seq![b0, b1]) =~= b64_group(b0, b1, 0, 2));
                assert(r@ =~= b64_text(bytes@));
            }
        } else {
            r.push(b64_char_exec(b0 % 4 * 16));
            r.push('=');
            r.push('=');
            proof {
                reveal_with_fuel(b64_text, 2);
                lemma_b64_text_append(bytes@.take(i as int), seq![b0]);
                assert(bytes@.take(i as int) + seq![b0] =~= bytes@);
                assert(b64_text(seq![b0]) =~= b64_group(b0, 0, 0, 1));
                assert(r@ =~= b64_text(bytes@));
            }
        }
    } else {
        proof {
            assert(bytes@.take(i as int) =~= bytes@);
        }
    }
    r
}

} // verus!
