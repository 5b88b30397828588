//! Deterministic text building: decimal rendering and the moment-file path
//! template.

use vstd::prelude::*;
use vstd::string::StringExecFns;

verus! {

/// The character of one decimal digit.
pub open spec fn dec_digit_char(d: int) -> char {
    ((48 + d) as u8) as char
}

/// Decimal rendering of a non-negative number, most significant digit
/// first.
pub open spec fn dec_digits(n: int) -> Seq<char>
    decreases n,
{
    if n < 10 {
        seq![dec_digit_char(n)]
    } else {
        dec_digits(n / 10).push(dec_digit_char(n % 10))
    }
}

/// Appends the decimal rendering of `n`.
fn append_decimal(n: usize, out: &mut String)
    ensures
        final(out)@ == old(out)@ + dec_digits(n as int),
    decreases n,
{
    if n >= 10 {
        append_decimal(n / 10, out);
    }
    let d = (n % 10) as u8;
    let ds: &str = match d {
        0 => "0",
        1 => "1",
        2 => "2",
        3 => "3",
        4 => "4",
        5 => "5",
        6 => "6",
        7 => "7",
        8 => "8",
        _ => "9",
    };
    proof {
        reveal_strlit("0");
        reveal_strlit("1");
        reveal_strlit("2");
        reveal_strlit("3");
        reveal_strlit("4");
        reveal_strlit("5");
        reveal_strlit("6");
        reveal_strlit("7");
        reveal_strlit("8");
        reveal_strlit("9");
        assert(ds@ =~= seq![dec_digit_char(n as int % 10)]);
    }
    out.append(ds);
    proof {
        if n >= 10 {
            assert(out@ =~= old(out)@ + dec_digits(n as int));
        } else {
            assert(dec_digits(n as int) =~= seq![dec_digit_char(n as int)]);
            assert(out@ =~= old(out)@ + dec_digits(n as int));
        }
    }
}

/// Decimal rendering of a number as a fresh string.
pub fn decimal_string(n: usize) -> (r: String)
    ensures
        r@ == dec_digits(n as int),
{
    let mut out = String::new();
    append_decimal(n, &mut out);
    proof {
        assert(Seq::<char>::empty() + dec_digits(n as int) =~= dec_digits(n as int));
    }
    out
}

/// The deterministic path of one moment file, relative to the measurement
/// root: corner, cell group, cell, arc ordinal and grid index fill a fixed
/// template.
pub fn moment_rel_path(
    base: &str,
    cell_group: &str,
    corner: &str,
    cell: &str,
    ordinal: &str,
    index: usize,
) -> (r: String)
    ensures
        r@ == base@ + "/"@ + cell_group@ + "/"@ + corner@ + "/"@ + cell@ + "/arc"@ + ordinal@
            + "/"@ + dec_digits(index as int) + "_moments.csv"@,
{
    let mut p = base.to_owned();
    p.append("/");
    p.append(cell_group);
    p.append("/");
    p.append(corner);
    p.append("/");
    p.append(cell);
    p.append("/arc");
    p.append(ordinal);
    p.append("/");
    append_decimal(index, &mut p);
    p.append("_moments.csv");
    p
}

} // verus!
