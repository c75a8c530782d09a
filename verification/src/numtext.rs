//! Decimal text for the exact integral values that the mapper and the
//! serializer emit.
use vstd::prelude::*;

verus! {

/// The character of a single decimal digit.
pub open spec fn dec_digit(d: int) -> char {
    (48 + d) as char
}

/// The decimal text of a non-negative number, most significant digit first,
/// no sign and no leading zeros (`0` gives `"0"`).
pub open spec fn dec_nat(n: nat) -> Seq<char>
    decreases n,
{
    if n < 10 {
        seq![dec_digit(n as int)]
    } else {
        dec_nat(n / 10).push(dec_digit((n % 10) as int))
    }
}

/// The decimal text of a signed number: a leading `-` for negatives.
pub open spec fn dec_int(n: int) -> Seq<char> {
    if n < 0 {
        seq!['-'] + dec_nat((-n) as nat)
    } else {
        dec_nat(n as nat)
    }
}

/// Appends the decimal text of `n`.
pub fn push_dec_u64(out: &mut String, n: u64)
    ensures
        final(out)@ == old(out)@ + dec_nat(n as nat),
    decreases n,
{
    if n >= 10 {
        push_dec_u64(out, n / 10);
    }
    out.push(((48 + (n % 10)) as u8) as char);
    proof {
        assert(((48 + (n as int % 10)) as u8) as char == dec_digit(n as int % 10));
        assert(out@ =~= old(out)@ + dec_nat(n as nat));
    }
}

/// Appends the decimal text of `n`, with a sign when it is negative.
pub fn push_dec_i64(out: &mut String, n: i64)
    ensures
        final(out)@ == old(out)@ + dec_int(n as int),
{
    if n < 0 {
        out.push('-');
        let mag: u64 = ((-(n as i128)) as u64);
        proof {
            assert(mag as nat == (-(n as int)) as nat);
        }
        push_dec_u64(out, mag);
        proof {
            assert(out@ =~= old(out)@ + dec_int(n as int));
        }
    } else {
        push_dec_u64(out, n as u64);
    }
}

} // verus!
