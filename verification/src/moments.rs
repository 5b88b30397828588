//! Measured statistical moments for one grid index.
//!
//! A moment file carries six raw statistics; scaled by the corner's unit
//! factor they become the six fixed-point values of a [`MomentSample`].

use vstd::prelude::*;

use crate::model::FRAC_DIGITS;
use crate::model::VALUE_LIMIT;

verus! {

/// Six scaled statistics read from one moment file: mean, standard deviation
/// and skewness, for delay and for transition.
#[derive(Clone, Copy, Debug, PartialEq, Eq, Structural)]
pub struct MomentSample {
    pub delay_mean: i64,
    pub delay_std_dev: i64,
    pub delay_skewness: i64,
    pub transition_mean: i64,
    pub transition_std_dev: i64,
    pub transition_skewness: i64,
}

/// All six statistics lie within `VALUE_LIMIT`.
pub open spec fn sample_bounded(s: MomentSample) -> bool {
    &&& -VALUE_LIMIT <= s.delay_mean <= VALUE_LIMIT
    &&& -VALUE_LIMIT <= s.delay_std_dev <= VALUE_LIMIT
    &&& -VALUE_LIMIT <= s.delay_skewness <= VALUE_LIMIT
    &&& -VALUE_LIMIT <= s.transition_mean <= VALUE_LIMIT
    &&& -VALUE_LIMIT <= s.transition_std_dev <= VALUE_LIMIT
    &&& -VALUE_LIMIT <= s.transition_skewness <= VALUE_LIMIT
}

/// Every present sample in a per-index list lies within `VALUE_LIMIT`.
pub open spec fn samples_bounded(moms: Seq<Option<MomentSample>>) -> bool {
    forall|i: int|
        0 <= i < moms.len() && (#[trigger] moms[i]) is Some ==> sample_bounded(moms[i]->0)
}

/// Largest admitted decimal-exponent magnitude of a numeric field.
pub const EXP_LIMIT: i64 = 1_000_000_000;

/// Largest admitted number of mantissa digits of a numeric field: any more
/// could not be held exactly in a fixed-point value.
pub const MAX_MANTISSA_DIGITS: usize = 18;

pub open spec fn is_dec_digit(b: u8) -> bool {
    48 <= b <= 57
}

pub open spec fn all_dec_digits(s: Seq<u8>) -> bool {
    forall|i: int| 0 <= i < s.len() ==> is_dec_digit(#[trigger] s[i])
}

/// Numeric value of a digit string, most significant first.
pub open spec fn digits_val(s: Seq<u8>) -> int
    decreases s.len(),
{
    if s.len() == 0 {
        0
    } else {
        digits_val(s.drop_last()) * 10 + (s.last() - 48)
    }
}

/// Ten to a power; one for negative arguments.
pub open spec fn pow10(e: int) -> int
    decreases e,
{
    if e <= 0 {
        1
    } else {
        10 * pow10(e - 1)
    }
}

/// Index of the first exponent marker (`e` or `E`), or the length.
pub open spec fn exp_idx(s: Seq<u8>) -> int
    decreases s.len(),
{
    if s.len() == 0 {
        0
    } else if s[0] == 101 || s[0] == 69 {
        0
    } else {
        1 + exp_idx(s.drop_first())
    }
}

/// Index of the first decimal point, or the length.
pub open spec fn dot_idx(s: Seq<u8>) -> int
    decreases s.len(),
{
    if s.len() == 0 {
        0
    } else if s[0] == 46 {
        0
    } else {
        1 + dot_idx(s.drop_first())
    }
}

/// Splits a leading sign off: the sign as +1 or -1, and the rest.
pub open spec fn sign_split(s: Seq<u8>) -> (int, Seq<u8>) {
    if s.len() > 0 && s[0] == 45 {
        (-1, s.drop_first())
    } else if s.len() > 0 && s[0] == 43 {
        (1, s.drop_first())
    } else {
        (1, s)
    }
}

/// The fixed-point value of a mantissa and a power of ten: `msign * n * 10^k`
/// where it is exact and within `VALUE_LIMIT`, else nothing.
pub open spec fn fixed_from_parts(msign: int, n: int, k: int) -> Option<int> {
    if k >= 0 {
        if n * pow10(k) <= VALUE_LIMIT as int {
            Some(msign * (n * pow10(k)))
        } else {
            None
        }
    } else {
        if n % pow10(-k) == 0 && n / pow10(-k) <= VALUE_LIMIT as int {
            Some(msign * (n / pow10(-k)))
        } else {
            None
        }
    }
}

/// The exact fixed-point reading of one numeric field, scaled by
/// `10^scale`: the field is `sign? digits ('.' digits)? ([eE] sign?
/// digits)?` with at least one mantissa digit; its value times
/// `10^(scale + FRAC_DIGITS)` must be an integer within `VALUE_LIMIT`, the
/// mantissa may hold at most `MAX_MANTISSA_DIGITS` digits and the exponent
/// at most `EXP_LIMIT`. Anything else reads as nothing.
pub open spec fn fixed_of_field(s: Seq<u8>, scale: int) -> Option<int> {
    let (msign, body) = sign_split(s);
    let ei = exp_idx(body);
    let mant = body.take(ei);
    let di = dot_idx(mant);
    let ip = mant.take(di);
    let fp = if di < mant.len() {
        mant.skip(di + 1)
    } else {
        Seq::empty()
    };
    let has_exp = ei < body.len();
    let etxt = body.skip(ei + 1);
    let esign = sign_split(etxt).0;
    let edig = sign_split(etxt).1;
    field_outcome(msign, ip, fp, has_exp, esign, edig, scale)
}

/// The reading of a field already split into sign, mantissa digit groups and
/// exponent digits.
pub open spec fn field_outcome(
    msign: int,
    ip: Seq<u8>,
    fp: Seq<u8>,
    has_exp: bool,
    esign: int,
    edig: Seq<u8>,
    scale: int,
) -> Option<int> {
    if !(all_dec_digits(ip) && all_dec_digits(fp) && ip.len() + fp.len() >= 1 && (has_exp
        ==> (edig.len() >= 1 && all_dec_digits(edig)))) {
        None
    } else if ip.len() + fp.len() > MAX_MANTISSA_DIGITS as int {
        None
    } else if has_exp && digits_val(edig) > EXP_LIMIT as int {
        None
    } else {
        let n = digits_val(ip + fp);
        let expv = if has_exp {
            esign * digits_val(edig)
        } else {
            0
        };
        fixed_from_parts(msign, n, expv - fp.len() + scale + FRAC_DIGITS as int)
    }
}

/// A digit string's value is below ten to its length.
pub proof fn lemma_digits_val_bound(s: Seq<u8>)
    requires
        all_dec_digits(s),
    ensures
        0 <= digits_val(s) < pow10(s.len() as int),
    decreases s.len(),
{
    if s.len() > 0 {
        assert(forall|i: int| 0 <= i < s.len() - 1 ==> s.drop_last()[i] == #[trigger] s[i]);
        lemma_digits_val_bound(s.drop_last());
        assert(pow10(s.len() as int) == 10 * pow10(s.len() - 1));
        assert(digits_val(s) == digits_val(s.drop_last()) * 10 + (s.last() - 48));
    }
}

/// Appending a digit multiplies the value by ten and adds the digit.
pub proof fn lemma_digits_val_push(s: Seq<u8>, d: u8)
    ensures
        digits_val(s.push(d)) == digits_val(s) * 10 + (d - 48),
{
    assert(s.push(d).drop_last() =~= s);
    assert(s.push(d).last() == d);
}

/// Powers of ten are positive and increasing.
pub proof fn lemma_pow10_pos(e: int)
    ensures
        pow10(e) >= 1,
    decreases (if e > 0 {
        e
    } else {
        0
    }),
{
    if e > 0 {
        lemma_pow10_pos(e - 1);
    }
}

/// A larger exponent gives at least as large a power.
pub proof fn lemma_pow10_mono(a: int, b: int)
    requires
        a <= b,
    ensures
        pow10(a) <= pow10(b),
    decreases b - a,
{
    if b > 0 && a < b {
        lemma_pow10_mono(a, b - 1);
        lemma_pow10_pos(b - 1);
        assert(pow10(b) == 10 * pow10(b - 1));
    }
}

/// If nothing before `j` is an exponent marker, the first marker is at `j`
/// or later; and if `j` holds one, it is exactly at `j`.
proof fn lemma_exp_idx_at(s: Seq<u8>, j: int)
    requires
        0 <= j <= s.len(),
        forall|t: int| 0 <= t < j ==> !((#[trigger] s[t]) == 101 || s[t] == 69),
    ensures
        exp_idx(s) >= j,
        j < s.len() && (s[j] == 101 || s[j] == 69) ==> exp_idx(s) == j,
        j == s.len() ==> exp_idx(s) == j,
    decreases s.len(),
{
    lemma_exp_idx_le(s);
    if s.len() > 0 && j > 0 {
        assert(forall|t: int| 0 <= t < j - 1 ==> s.drop_first()[t] == #[trigger] s[t + 1]);
        lemma_exp_idx_at(s.drop_first(), j - 1);
        assert(j < s.len() ==> s.drop_first()[j - 1] == s[j]);
    }
}

/// The first marker is within the sequence.
proof fn lemma_exp_idx_le(s: Seq<u8>)
    ensures
        0 <= exp_idx(s) <= s.len(),
    decreases s.len(),
{
    if s.len() > 0 && !(s[0] == 101 || s[0] == 69) {
        lemma_exp_idx_le(s.drop_first());
    }
}

/// If nothing before `j` is a decimal point, the first point is at `j` or
/// later; and if `j` holds one, it is exactly at `j`.
proof fn lemma_dot_idx_at(s: Seq<u8>, j: int)
    requires
        0 <= j <= s.len(),
        forall|t: int| 0 <= t < j ==> (#[trigger] s[t]) != 46,
    ensures
        dot_idx(s) >= j,
        j < s.len() && s[j] == 46 ==> dot_idx(s) == j,
        j == s.len() ==> dot_idx(s) == j,
    decreases s.len(),
{
    lemma_dot_idx_le(s);
    if s.len() > 0 && j > 0 {
        assert(forall|t: int| 0 <= t < j - 1 ==> s.drop_first()[t] == #[trigger] s[t + 1]);
        lemma_dot_idx_at(s.drop_first(), j - 1);
        assert(j < s.len() ==> s.drop_first()[j - 1] == s[j]);
    }
}

/// The first point is within the sequence.
proof fn lemma_dot_idx_le(s: Seq<u8>)
    ensures
        0 <= dot_idx(s) <= s.len(),
    decreases s.len(),
{
    if s.len() > 0 && s[0] != 46 {
        lemma_dot_idx_le(s.drop_first());
    }
}

/// Concrete powers of ten the parser's bounds rest on.
proof fn lemma_pow10_vals()
    ensures
        pow10(18) == 1000000000000000000,
        pow10(19) == 10000000000000000000,
    decreases 0int,
{
    reveal_with_fuel(pow10, 21);
}

/// Reads one numeric field as an exact fixed-point value scaled by ten to
/// `scale_exp10`: exactly the reading that [`fixed_of_field`] defines.
#[verifier::rlimit(100)]
pub fn parse_fixed_field(s: &[u8], scale_exp10: i32) -> (r: Option<i64>)
    ensures
        match r {
            Some(v) => fixed_of_field(s@, scale_exp10 as int) == Some(v as int),
            None => fixed_of_field(s@, scale_exp10 as int) is None,
        },
{
    let len = s.len();
    let mut i: usize = 0;
    let mut msign: i64 = 1;
    if len > 0 && (s[0] == 45 || s[0] == 43) {
        if s[0] == 45 {
            msign = -1;
        }
        i = 1;
    }
    let ghost sl = i as int;
    let ghost body = s@.skip(sl);
    proof {
        assert(s@.drop_first() =~= s@.skip(1));
        assert(sign_split(s@).0 == msign as int);
        assert(sign_split(s@).1 =~= body);
        assert(forall|t: int| 0 <= t < body.len() ==> #[trigger] body[t] == s@[t + sl]);
    }
    // Integer part of the mantissa.
    let mut n: i64 = 0;
    let mut digit_cnt: usize = 0;
    while i < len && s[i] >= 48 && s[i] <= 57
        invariant
            len == s@.len(),
            sl <= i as int <= len as int,
            sl == 0 || sl == 1,
            digit_cnt == i as int - sl,
            all_dec_digits(s@.subrange(sl, i as int)),
            digit_cnt <= MAX_MANTISSA_DIGITS ==> n == digits_val(s@.subrange(sl, i as int)),
            0 <= n < 1000000000000000000,
        decreases len - i,
    {
        let d = s[i] - 48;
        proof {
            assert(s@.subrange(sl, i as int + 1) =~= s@.subrange(sl, i as int).push(
                s@[i as int],
            ));
            lemma_digits_val_push(s@.subrange(sl, i as int), s@[i as int]);
            if digit_cnt < MAX_MANTISSA_DIGITS {
                lemma_digits_val_bound(s@.subrange(sl, i as int));
                lemma_pow10_mono(i as int - sl, 17);
                lemma_pow10_vals();
            }
        }
        if digit_cnt < MAX_MANTISSA_DIGITS {
            n = n * 10 + d as i64;
        }
        digit_cnt += 1;
        i += 1;
    }
    let ghost ip_end = i as int;
    // Optional decimal point and fraction part.
    let mut has_dot = false;
    let mut fp_len: usize = 0;
    let ghost mut dot_pos: int = 0;
    if i < len && s[i] == 46 {
        has_dot = true;
        proof {
            dot_pos = i as int;
        }
        i += 1;
        while i < len && s[i] >= 48 && s[i] <= 57
            invariant
                len == s@.len(),
                sl <= dot_pos,
                dot_pos < i as int <= len as int,
                sl == 0 || sl == 1,
                dot_pos == ip_end,
                s@[dot_pos] == 46,
                fp_len == i as int - dot_pos - 1,
                digit_cnt == (dot_pos - sl) + fp_len,
                all_dec_digits(s@.subrange(sl, dot_pos)),
                all_dec_digits(s@.subrange(dot_pos + 1, i as int)),
                digit_cnt <= MAX_MANTISSA_DIGITS ==> n == digits_val(
                    s@.subrange(sl, dot_pos) + s@.subrange(dot_pos + 1, i as int),
                ),
                0 <= n < 1000000000000000000,
            decreases len - i,
        {
            let d = s[i] - 48;
            proof {
                let pre = s@.subrange(sl, dot_pos) + s@.subrange(dot_pos + 1, i as int);
                assert(s@.subrange(dot_pos + 1, i as int + 1) =~= s@.subrange(
                    dot_pos + 1,
                    i as int,
                ).push(s@[i as int]));
                assert((s@.subrange(sl, dot_pos) + s@.subrange(dot_pos + 1, i as int + 1))
                    =~= pre.push(s@[i as int]));
                lemma_digits_val_push(pre, s@[i as int]);
                if digit_cnt < MAX_MANTISSA_DIGITS {
                    assert(all_dec_digits(pre));
                    assert(pre.len() == digit_cnt);
                    lemma_digits_val_bound(pre);
                    lemma_pow10_mono(pre.len() as int, 17);
                    lemma_pow10_vals();
                }
            }
            if digit_cnt < MAX_MANTISSA_DIGITS {
                n = n * 10 + d as i64;
            }
            digit_cnt += 1;
            fp_len += 1;
            i += 1;
        }
    }
    let ghost mant_end = i as int;
    let ghost mant = s@.subrange(sl, mant_end);
    let ghost ip = if has_dot {
        s@.subrange(sl, dot_pos)
    } else {
        mant
    };
    let ghost fp = if has_dot {
        s@.subrange(dot_pos + 1, mant_end)
    } else {
        Seq::<u8>::empty()
    };
    proof {
        if has_dot {
            assert((ip + fp).len() == digit_cnt);
        } else {
            assert(ip + fp =~= s@.subrange(sl, mant_end));
        }
        assert(all_dec_digits(ip));
        assert(all_dec_digits(fp));
        assert(ip.len() + fp.len() == digit_cnt);
        assert(digit_cnt <= MAX_MANTISSA_DIGITS ==> n == digits_val(ip + fp));
    }
    // Optional exponent part.
    let mut has_exp = false;
    let mut esign: i64 = 1;
    let mut ev: i64 = 0;
    let mut e_cnt: usize = 0;
    let ghost mut e_digits_start: int = 0;
    if i < len && (s[i] == 101 || s[i] == 69) {
        has_exp = true;
        i += 1;
        if i < len && (s[i] == 45 || s[i] == 43) {
            if s[i] == 45 {
                esign = -1;
            }
            i += 1;
        }
        proof {
            e_digits_start = i as int;
        }
        while i < len && s[i] >= 48 && s[i] <= 57
            invariant
                len == s@.len(),
                0 <= e_digits_start <= i as int <= len as int,
                e_cnt == i as int - e_digits_start,
                all_dec_digits(s@.subrange(e_digits_start, i as int)),
                digits_val(s@.subrange(e_digits_start, i as int)) <= EXP_LIMIT as int ==> ev
                    == digits_val(s@.subrange(e_digits_start, i as int)),
                digits_val(s@.subrange(e_digits_start, i as int)) > EXP_LIMIT as int ==> ev
                    > EXP_LIMIT,
                0 <= ev <= 10000000009,
            decreases len - i,
        {
            let d = s[i] - 48;
            proof {
                let pre = s@.subrange(e_digits_start, i as int);
                assert(s@.subrange(e_digits_start, i as int + 1) =~= pre.push(s@[i as int]));
                lemma_digits_val_push(pre, s@[i as int]);
                lemma_digits_val_bound(pre);
            }
            if ev <= EXP_LIMIT {
                ev = ev * 10 + d as i64;
            }
            e_cnt += 1;
            i += 1;
        }
    }
    // The whole field must have been consumed.
    if i != len {
        proof {
            lemma_trailing_garbage(
                s@,
                sl,
                msign as int,
                has_dot,
                dot_pos,
                mant_end,
                has_exp,
                e_digits_start,
                i as int,
                scale_exp10 as int,
            );
        }
        return None;
    }
    // Relate the scanned pieces to the field decomposition.
    proof {
        lemma_field_decomposition(
            s@,
            sl,
            msign as int,
            has_dot,
            dot_pos,
            mant_end,
            has_exp,
            esign as int,
            e_digits_start,
            scale_exp10 as int,
        );
    }
    let ghost edig = s@.subrange(e_digits_start, len as int);
    proof {
        if has_exp {
            assert(edig.len() == e_cnt);
        }
    }
    finish_field(
        msign,
        n,
        digit_cnt,
        fp_len,
        has_exp,
        esign,
        ev,
        e_cnt,
        scale_exp10,
        Ghost(s@),
        Ghost(ip),
        Ghost(fp),
        Ghost(edig),
    )
}

/// Decides the reading from the split pieces of a fully scanned field.
#[verifier::rlimit(100)]
fn finish_field(
    msign: i64,
    n: i64,
    digit_cnt: usize,
    fp_len: usize,
    has_exp: bool,
    esign: i64,
    ev: i64,
    e_cnt: usize,
    scale_exp10: i32,
    Ghost(s): Ghost<Seq<u8>>,
    Ghost(ip): Ghost<Seq<u8>>,
    Ghost(fp): Ghost<Seq<u8>>,
    Ghost(edig): Ghost<Seq<u8>>,
) -> (r: Option<i64>)
    requires
        msign == 1 || msign == -1,
        esign == 1 || esign == -1,
        ip.len() + fp.len() == digit_cnt,
        fp.len() == fp_len,
        all_dec_digits(ip),
        all_dec_digits(fp),
        digit_cnt <= MAX_MANTISSA_DIGITS ==> n == digits_val(ip + fp),
        0 <= n < 1000000000000000000,
        has_exp ==> edig.len() == e_cnt && all_dec_digits(edig),
        has_exp && digits_val(edig) <= EXP_LIMIT as int ==> ev == digits_val(edig),
        has_exp && digits_val(edig) > EXP_LIMIT as int ==> ev > EXP_LIMIT,
        0 <= ev <= 10000000009,
        fixed_of_field(s, scale_exp10 as int) == field_outcome(
            msign as int,
            ip,
            fp,
            has_exp,
            esign as int,
            edig,
            scale_exp10 as int,
        ),
    ensures
        match r {
            Some(v) => fixed_of_field(s, scale_exp10 as int) == Some(v as int),
            None => fixed_of_field(s, scale_exp10 as int) is None,
        },
{
    if digit_cnt == 0 {
        return None;
    }
    if has_exp && e_cnt == 0 {
        return None;
    }
    if digit_cnt > MAX_MANTISSA_DIGITS {
        return None;
    }
    if has_exp && ev > EXP_LIMIT {
        return None;
    }
    let k_i: i64 = (if has_exp {
        esign * ev
    } else {
        0
    }) - (fp_len as i64) + (scale_exp10 as i64) + 12;
    let ghost k = k_i as int;
    proof {
        assert(n == digits_val(ip + fp));
        assert(fixed_of_field(s, scale_exp10 as int) == fixed_from_parts(
            msign as int,
            n as int,
            k,
        ));
    }
    if n == 0 {
        proof {
            if k < 0 {
                lemma_pow10_pos(-k);
                assert(0int % pow10(-k) == 0);
                assert(0int / pow10(-k) == 0);
            }
        }
        return Some(0);
    }
    if k_i >= 0 {
        if k_i > 18 {
            proof {
                lemma_pow10_mono(19, k);
                lemma_pow10_vals();
                assert(n as int * pow10(k) >= pow10(k)) by (nonlinear_arith)
                    requires
                        n >= 1,
                        pow10(k) >= 1,
                ;
            }
            return None;
        }
        let p = pow10_exec(k_i as u32);
        proof {
            lemma_pow10_pos(k);
            lemma_pow10_mono(k, 18);
            lemma_pow10_vals();
            assert((n as int) * (p as int) < 1000000000000000000000000000000000000int)
                by (nonlinear_arith)
                requires
                    0 <= n < 1000000000000000000,
                    1 <= p <= 1000000000000000000,
            ;
            assert((n as int) * (p as int) >= 0) by (nonlinear_arith)
                requires
                    0 <= n,
                    1 <= p,
            ;
        }
        let prod: i128 = (n as i128) * (p as i128);
        if prod <= 1_000_000_000_000_000_000i128 {
            let v = n * p;
            return Some(
                if msign < 0 {
                    -v
                } else {
                    v
                },
            );
        } else {
            return None;
        }
    } else {
        let nk = -k_i;
        if nk > 18 {
            proof {
                lemma_pow10_mono(19, -k);
                lemma_pow10_vals();
                assert(n as int % pow10(-k) == n as int) by {
                    vstd::arithmetic::div_mod::lemma_small_mod(n as nat, pow10(-k) as nat);
                };
            }
            return None;
        }
        let p = pow10_exec(nk as u32);
        proof {
            lemma_pow10_pos(-k);
            lemma_pow10_mono(-k, 18);
            lemma_pow10_vals();
        }
        if n % p == 0 {
            let v = n / p;
            proof {
                assert(v <= n) by (nonlinear_arith)
                    requires
                        n >= 0,
                        p >= 1,
                        v == n / p,
                ;
            }
            return Some(
                if msign < 0 {
                    -v
                } else {
                    v
                },
            );
        } else {
            return None;
        }
    }
}

/// Index of the first line break, or the length.
pub open spec fn nl_idx(s: Seq<u8>) -> int
    decreases s.len(),
{
    if s.len() == 0 {
        0
    } else if s[0] == 10 {
        0
    } else {
        1 + nl_idx(s.drop_first())
    }
}

/// Index of the first comma, or the length.
pub open spec fn comma_idx(s: Seq<u8>) -> int
    decreases s.len(),
{
    if s.len() == 0 {
        0
    } else if s[0] == 44 {
        0
    } else {
        1 + comma_idx(s.drop_first())
    }
}

/// The second line of a moment file: the first line is a header. Nothing if
/// the file has no line break.
pub open spec fn data_line(c: Seq<u8>) -> Option<Seq<u8>> {
    if nl_idx(c) == c.len() {
        None
    } else {
        let rest = c.skip(nl_idx(c) + 1);
        Some(rest.take(nl_idx(rest)))
    }
}

/// The `j`-th comma-separated field of a line, if the line has that many.
pub open spec fn field_at(s: Seq<u8>, j: int) -> Option<Seq<u8>>
    decreases j,
{
    if j <= 0 {
        Some(s.take(comma_idx(s)))
    } else if comma_idx(s) == s.len() {
        None
    } else {
        field_at(s.skip(comma_idx(s) + 1), j - 1)
    }
}

/// The sample a data line carries: its first six fields read as fixed-point
/// values in order delay mean, delay standard deviation, delay skewness,
/// then the same three for transition. Nothing if a field is missing or does
/// not read.
pub open spec fn sample_of_line(line: Seq<u8>, scale: int) -> Option<MomentSample> {
    if forall|j: int|
        0 <= j < 6 ==> (#[trigger] field_at(line, j)) is Some && fixed_of_field(
            field_at(line, j)->0,
            scale,
        ) is Some {
        Some(
            MomentSample {
                delay_mean: fixed_of_field(field_at(line, 0)->0, scale)->0 as i64,
                delay_std_dev: fixed_of_field(field_at(line, 1)->0, scale)->0 as i64,
                delay_skewness: fixed_of_field(field_at(line, 2)->0, scale)->0 as i64,
                transition_mean: fixed_of_field(field_at(line, 3)->0, scale)->0 as i64,
                transition_std_dev: fixed_of_field(field_at(line, 4)->0, scale)->0 as i64,
                transition_skewness: fixed_of_field(field_at(line, 5)->0, scale)->0 as i64,
            },
        )
    } else {
        None
    }
}

/// The sample one moment file carries.
pub open spec fn moment_of_text(content: Seq<u8>, scale: int) -> Option<MomentSample> {
    match data_line(content) {
        None => None,
        Some(line) => sample_of_line(line, scale),
    }
}

/// A scan that stopped before the end of the field leaves no reading: the
/// stray byte lands in a digit group of the decomposition and breaks it.
#[verifier::rlimit(100)]
proof fn lemma_trailing_garbage(
    s: Seq<u8>,
    sl: int,
    msign: int,
    has_dot: bool,
    dot_pos: int,
    mant_end: int,
    has_exp: bool,
    e_digits_start: int,
    bad: int,
    scale: int,
)
    requires
        0 <= sl <= mant_end <= bad < s.len(),
        sl == 0 || sl == 1,
        sl == 1 ==> s.len() >= 1 && (s[0] == 45 || s[0] == 43) && msign == (if s[0] == 45 {
            -1int
        } else {
            1int
        }),
        sl == 0 ==> msign == 1 && (s.len() == 0 || !(s[0] == 45 || s[0] == 43)),
        has_dot ==> sl <= dot_pos < mant_end && s[dot_pos] == 46 && all_dec_digits(
            s.subrange(sl, dot_pos),
        ) && all_dec_digits(s.subrange(dot_pos + 1, mant_end)),
        !has_dot ==> all_dec_digits(s.subrange(sl, mant_end)),
        has_exp ==> (s[mant_end] == 101 || s[mant_end] == 69),
        has_exp ==> mant_end + 1 <= e_digits_start <= mant_end + 2 && e_digits_start <= bad,
        has_exp && e_digits_start == mant_end + 2 ==> (s[mant_end + 1] == 45 || s[mant_end
            + 1] == 43),
        has_exp && e_digits_start == mant_end + 1 && mant_end + 1 < s.len() ==> !(s[mant_end
            + 1] == 45 || s[mant_end + 1] == 43),
        has_exp ==> all_dec_digits(s.subrange(e_digits_start, bad)),
        !has_exp ==> bad == mant_end && !(s[bad] == 101 || s[bad] == 69) && (!has_dot
            ==> s[bad] != 46),
        !is_dec_digit(s[bad]),
    ensures
        fixed_of_field(s, scale) is None,
{
    let body = s.skip(sl);
    assert(s.drop_first() =~= s.skip(1));
    assert(sign_split(s) == (msign, body));
    assert(forall|t: int| 0 <= t < body.len() ==> #[trigger] body[t] == s[t + sl]);
    lemma_exp_idx_le(body);
    let c = s[bad];
    if has_exp {
        assert forall|t: int| sl <= t < mant_end implies !((#[trigger] s[t]) == 101 || s[t]
            == 69) by {
            if has_dot {
                if t < dot_pos {
                    assert(is_dec_digit(s.subrange(sl, dot_pos)[t - sl]));
                } else if t > dot_pos {
                    assert(is_dec_digit(s.subrange(dot_pos + 1, mant_end)[t - dot_pos - 1]));
                }
            } else {
                assert(is_dec_digit(s.subrange(sl, mant_end)[t - sl]));
            }
        }
        lemma_exp_idx_at(body, mant_end - sl);
        assert(exp_idx(body) == mant_end - sl);
        let etxt = body.skip(mant_end - sl + 1);
        assert(etxt =~= s.subrange(mant_end + 1, s.len() as int));
        assert(sign_split(etxt).1 =~= s.subrange(e_digits_start, s.len() as int));
        let edig = sign_split(etxt).1;
        assert(edig[bad - e_digits_start] == c);
        assert(!all_dec_digits(edig));
        assert(fixed_of_field(s, scale) is None);
    } else {
        assert forall|t: int| sl <= t < bad + 1 implies !((#[trigger] s[t]) == 101 || s[t]
            == 69) by {
            if t < bad {
                if has_dot {
                    if t < dot_pos {
                        assert(is_dec_digit(s.subrange(sl, dot_pos)[t - sl]));
                    } else if t > dot_pos {
                        assert(is_dec_digit(
                            s.subrange(dot_pos + 1, mant_end)[t - dot_pos - 1],
                        ));
                    }
                } else {
                    assert(is_dec_digit(s.subrange(sl, mant_end)[t - sl]));
                }
            }
        }
        lemma_exp_idx_at(body, bad - sl + 1);
        let ei = exp_idx(body);
        assert(ei >= bad - sl + 1);
        let mant_s = body.take(ei);
        assert(mant_s.len() == ei);
        assert(forall|t: int| 0 <= t < ei ==> #[trigger] mant_s[t] == s[t + sl]);
        lemma_dot_idx_le(mant_s);
        if has_dot {
            assert(forall|t: int| 0 <= t < dot_pos - sl ==> (#[trigger] mant_s[t]) != 46);
            lemma_dot_idx_at(mant_s, dot_pos - sl);
            assert(dot_idx(mant_s) == dot_pos - sl);
            let fp_s = mant_s.skip(dot_pos - sl + 1);
            assert(fp_s[bad - dot_pos - 1] == c);
            assert(!all_dec_digits(fp_s));
        } else {
            assert(forall|t: int| 0 <= t < bad - sl + 1 ==> (#[trigger] mant_s[t]) != 46);
            lemma_dot_idx_at(mant_s, bad - sl + 1);
            let di = dot_idx(mant_s);
            assert(di >= bad - sl + 1);
            let ip_s = mant_s.take(di);
            assert(ip_s[bad - sl] == c);
            assert(!all_dec_digits(ip_s));
        }
        assert(fixed_of_field(s, scale) is None);
    }
}

/// A fully scanned field reads exactly as its split pieces say.
#[verifier::rlimit(100)]
proof fn lemma_field_decomposition(
    s: Seq<u8>,
    sl: int,
    msign: int,
    has_dot: bool,
    dot_pos: int,
    mant_end: int,
    has_exp: bool,
    esign: int,
    e_digits_start: int,
    scale: int,
)
    requires
        0 <= sl <= mant_end <= s.len(),
        sl == 0 || sl == 1,
        sl == 1 ==> s.len() >= 1 && (s[0] == 45 || s[0] == 43) && msign == (if s[0] == 45 {
            -1int
        } else {
            1int
        }),
        sl == 0 ==> msign == 1 && (s.len() == 0 || !(s[0] == 45 || s[0] == 43)),
        has_dot ==> sl <= dot_pos < mant_end && s[dot_pos] == 46 && all_dec_digits(
            s.subrange(sl, dot_pos),
        ) && all_dec_digits(s.subrange(dot_pos + 1, mant_end)),
        !has_dot ==> all_dec_digits(s.subrange(sl, mant_end)),
        has_exp ==> mant_end < s.len() && (s[mant_end] == 101 || s[mant_end] == 69),
        !has_exp ==> mant_end == s.len(),
        has_exp ==> mant_end + 1 <= e_digits_start <= mant_end + 2 && e_digits_start
            <= s.len(),
        has_exp && e_digits_start == mant_end + 2 ==> (s[mant_end + 1] == 45 || s[mant_end
            + 1] == 43) && esign == (if s[mant_end + 1] == 45 {
            -1int
        } else {
            1int
        }),
        has_exp && e_digits_start == mant_end + 1 ==> esign == 1 && (mant_end + 1 < s.len()
            ==> !(s[mant_end + 1] == 45 || s[mant_end + 1] == 43)),
    ensures
        fixed_of_field(s, scale) == field_outcome(
            msign,
            (if has_dot {
                s.subrange(sl, dot_pos)
            } else {
                s.subrange(sl, mant_end)
            }),
            (if has_dot {
                s.subrange(dot_pos + 1, mant_end)
            } else {
                Seq::<u8>::empty()
            }),
            has_exp,
            esign,
            s.subrange(e_digits_start, s.len() as int),
            scale,
        ),
{
    let body = s.skip(sl);
    assert(s.drop_first() =~= s.skip(1));
    assert(sign_split(s) == (msign, body));
    assert(forall|t: int| 0 <= t < body.len() ==> #[trigger] body[t] == s[t + sl]);
    lemma_exp_idx_le(body);
    assert forall|t: int| sl <= t < mant_end implies !((#[trigger] s[t]) == 101 || s[t]
        == 69) by {
        if has_dot {
            if t < dot_pos {
                assert(is_dec_digit(s.subrange(sl, dot_pos)[t - sl]));
            } else if t > dot_pos {
                assert(is_dec_digit(s.subrange(dot_pos + 1, mant_end)[t - dot_pos - 1]));
            }
        } else {
            assert(is_dec_digit(s.subrange(sl, mant_end)[t - sl]));
        }
    }
    lemma_exp_idx_at(body, mant_end - sl);
    assert(exp_idx(body) == mant_end - sl);
    let mant = body.take(mant_end - sl);
    assert(mant =~= s.subrange(sl, mant_end));
    lemma_dot_idx_le(mant);
    if has_dot {
        assert(forall|t: int| 0 <= t < dot_pos - sl ==> (#[trigger] mant[t]) != 46);
        lemma_dot_idx_at(mant, dot_pos - sl);
        assert(dot_idx(mant) == dot_pos - sl);
        assert(mant.take(dot_pos - sl) =~= s.subrange(sl, dot_pos));
        assert(mant.skip(dot_pos - sl + 1) =~= s.subrange(dot_pos + 1, mant_end));
    } else {
        assert(forall|t: int| 0 <= t < mant.len() ==> (#[trigger] mant[t]) != 46);
        lemma_dot_idx_at(mant, mant.len() as int);
        assert(dot_idx(mant) == mant.len());
        assert(mant.take(mant.len() as int) =~= s.subrange(sl, mant_end));
    }
    assert(has_exp == (exp_idx(body) < body.len()));
    if has_exp {
        let etxt = body.skip(mant_end - sl + 1);
        assert(etxt =~= s.subrange(mant_end + 1, s.len() as int));
        assert(sign_split(etxt).0 == esign);
        assert(sign_split(etxt).1 =~= s.subrange(e_digits_start, s.len() as int));
    }
}

/// If nothing before `j` is a line break, the first line break is at `j` or
/// later; and if `j` holds one, it is exactly at `j`.
proof fn lemma_nl_idx_at(s: Seq<u8>, j: int)
    requires
        0 <= j <= s.len(),
        forall|t: int| 0 <= t < j ==> (#[trigger] s[t]) != 10,
    ensures
        nl_idx(s) >= j,
        j < s.len() && s[j] == 10 ==> nl_idx(s) == j,
        j == s.len() ==> nl_idx(s) == j,
    decreases s.len(),
{
    lemma_nl_idx_le(s);
    if s.len() > 0 && j > 0 {
        assert(forall|t: int| 0 <= t < j - 1 ==> s.drop_first()[t] == #[trigger] s[t + 1]);
        lemma_nl_idx_at(s.drop_first(), j - 1);
        assert(j < s.len() ==> s.drop_first()[j - 1] == s[j]);
    }
}

/// The first line break is within the sequence.
proof fn lemma_nl_idx_le(s: Seq<u8>)
    ensures
        0 <= nl_idx(s) <= s.len(),
    decreases s.len(),
{
    if s.len() > 0 && s[0] != 10 {
        lemma_nl_idx_le(s.drop_first());
    }
}

/// If nothing before `j` is a comma, the first comma is at `j` or later; and
/// if `j` holds one, it is exactly at `j`.
proof fn lemma_comma_idx_at(s: Seq<u8>, j: int)
    requires
        0 <= j <= s.len(),
        forall|t: int| 0 <= t < j ==> (#[trigger] s[t]) != 44,
    ensures
        comma_idx(s) >= j,
        j < s.len() && s[j] == 44 ==> comma_idx(s) == j,
        j == s.len() ==> comma_idx(s) == j,
    decreases s.len(),
{
    lemma_comma_idx_le(s);
    if s.len() > 0 && j > 0 {
        assert(forall|t: int| 0 <= t < j - 1 ==> s.drop_first()[t] == #[trigger] s[t + 1]);
        lemma_comma_idx_at(s.drop_first(), j - 1);
        assert(j < s.len() ==> s.drop_first()[j - 1] == s[j]);
    }
}

/// The first comma is within the sequence.
proof fn lemma_comma_idx_le(s: Seq<u8>)
    ensures
        0 <= comma_idx(s) <= s.len(),
    decreases s.len(),
{
    if s.len() > 0 && s[0] != 44 {
        lemma_comma_idx_le(s.drop_first());
    }
}

/// Copy of a byte range.
fn subrange_vec(s: &[u8], a: usize, b: usize) -> (r: Vec<u8>)
    requires
        a <= b <= s@.len(),
    ensures
        r@ == s@.subrange(a as int, b as int),
{
    let mut r: Vec<u8> = Vec::new();
    let mut i = a;
    while i < b
        invariant
            a <= i <= b <= s@.len(),
            r@.len() == i - a,
            forall|t: int| 0 <= t < i - a ==> r@[t] == s@[t + a],
        decreases b - i,
    {
        r.push(s[i]);
        i += 1;
    }
    proof {
        assert(r@ =~= s@.subrange(a as int, b as int));
    }
    r
}

/// A field that reads as a value lies within `VALUE_LIMIT`.
pub proof fn lemma_fixed_in_range(s: Seq<u8>, scale: int)
    requires
        fixed_of_field(s, scale) is Some,
    ensures
        -VALUE_LIMIT <= fixed_of_field(s, scale)->0 <= VALUE_LIMIT,
{
    let (msign, body) = sign_split(s);
    let ei = exp_idx(body);
    let mant = body.take(ei);
    let di = dot_idx(mant);
    let ip = mant.take(di);
    let fp = if di < mant.len() {
        mant.skip(di + 1)
    } else {
        Seq::empty()
    };
    let n = digits_val(ip + fp);
    assert(all_dec_digits(ip + fp)) by {
        assert(forall|t: int|
            0 <= t < ip.len() ==> (ip + fp)[t] == #[trigger] ip[t]);
        assert(forall|t: int|
            0 <= t < fp.len() ==> (ip + fp)[ip.len() + t] == #[trigger] fp[t]);
        assert(forall|t: int|
            0 <= t < (ip + fp).len() ==> is_dec_digit(#[trigger] (ip + fp)[t]));
    }
    lemma_digits_val_bound(ip + fp);
    let edig = sign_split(body.skip(ei + 1)).1;
    let has_exp = ei < body.len();
    let esign = sign_split(body.skip(ei + 1)).0;
    let expv = if has_exp {
        esign * digits_val(edig)
    } else {
        0
    };
    let k = expv - fp.len() + scale + FRAC_DIGITS as int;
    assert(msign == 1 || msign == -1);
    if k >= 0 {
        lemma_pow10_pos(k);
        assert(n * pow10(k) >= 0) by (nonlinear_arith)
            requires
                n >= 0,
                pow10(k) >= 1,
        ;
        assert(-VALUE_LIMIT <= msign * (n * pow10(k)) <= VALUE_LIMIT) by (nonlinear_arith)
            requires
                msign == 1 || msign == -1,
                0 <= n * pow10(k) <= VALUE_LIMIT as int,
        ;
    } else {
        lemma_pow10_pos(-k);
        vstd::arithmetic::div_mod::lemma_div_pos_is_pos(n, pow10(-k));
        assert(n / pow10(-k) <= n) by (nonlinear_arith)
            requires
                n >= 0,
                pow10(-k) >= 1,
        ;
        assert(-VALUE_LIMIT <= msign * (n / pow10(-k)) <= VALUE_LIMIT) by (nonlinear_arith)
            requires
                msign == 1 || msign == -1,
                0 <= n / pow10(-k) <= VALUE_LIMIT as int,
        ;
    }
}

/// A sample read from a line lies within `VALUE_LIMIT` in all six
/// statistics.
pub proof fn lemma_sample_in_range(line: Seq<u8>, scale: int)
    requires
        sample_of_line(line, scale) is Some,
    ensures
        sample_bounded(sample_of_line(line, scale)->0),
{
    assert forall|j: int| 0 <= j < 6 implies (#[trigger] field_at(line, j)) is Some
        && fixed_of_field(field_at(line, j)->0, scale) is Some by {}
    lemma_fixed_in_range(field_at(line, 0)->0, scale);
    lemma_fixed_in_range(field_at(line, 1)->0, scale);
    lemma_fixed_in_range(field_at(line, 2)->0, scale);
    lemma_fixed_in_range(field_at(line, 3)->0, scale);
    lemma_fixed_in_range(field_at(line, 4)->0, scale);
    lemma_fixed_in_range(field_at(line, 5)->0, scale);
}

/// Reads the first six fields of a data line as one sample: exactly the
/// reading that [`sample_of_line`] defines.
#[verifier::rlimit(100)]
fn parse_data_line(line: &[u8], scale_exp10: i32) -> (r: Option<MomentSample>)
    ensures
        r == sample_of_line(line@, scale_exp10 as int),
{
    let len = line.len();
    let mut vals: Vec<i64> = Vec::new();
    let mut pos: usize = 0;
    let ghost mut rest = line@;
    for f in 0..6usize
        invariant
            len == line@.len(),
            pos <= len,
            rest == line@.skip(pos as int),
            f < 6 ==> forall|t: int|
                t >= 0 ==> field_at(line@, f + t) == #[trigger] field_at(rest, t),
            vals@.len() == f,
            forall|t: int|
                0 <= t < f ==> (#[trigger] field_at(line@, t)) is Some && fixed_of_field(
                    field_at(line@, t)->0,
                    scale_exp10 as int,
                ) == Some(vals@[t] as int),
    {
        let mut c = pos;
        while c < len && line[c] != 44
            invariant
                pos <= c <= len,
                len == line@.len(),
                forall|t: int| pos <= t < c ==> (#[trigger] line@[t]) != 44,
            decreases len - c,
        {
            c += 1;
        }
        proof {
            assert(forall|t: int|
                0 <= t < rest.len() ==> #[trigger] rest[t] == line@[t + pos]);
            lemma_comma_idx_at(rest, c as int - pos as int);
            assert(comma_idx(rest) == c as int - pos as int);
            assert(field_at(rest, 0) == Some(rest.take(c as int - pos as int)));
            assert(rest.take(c as int - pos as int) =~= line@.subrange(pos as int, c as int));
            assert(field_at(line@, f as int) == Some(
                line@.subrange(pos as int, c as int),
            ));
        }
        let fld = subrange_vec(line, pos, c);
        match parse_fixed_field(fld.as_slice(), scale_exp10) {
            Some(v) => {
                vals.push(v);
            },
            None => {
                proof {
                    assert(fixed_of_field(field_at(line@, f as int)->0, scale_exp10 as int)
                        is None);
                    assert(sample_of_line(line@, scale_exp10 as int) is None);
                }
                return None;
            },
        }
        if f < 5 {
            if c == len {
                proof {
                    assert(comma_idx(rest) == rest.len());
                    assert(field_at(rest, 1) is None);
                    assert(field_at(line@, f + 1) is None);
                    assert(sample_of_line(line@, scale_exp10 as int) is None);
                }
                return None;
            }
            pos = c + 1;
            proof {
                let old_rest = rest;
                rest = line@.skip(pos as int);
                assert(old_rest.skip(comma_idx(old_rest) + 1) =~= rest);
                assert forall|t: int|
                    t >= 0 implies field_at(line@, (f + 1) + t) == #[trigger] field_at(
                    rest,
                    t,
                ) by {
                    assert(field_at(line@, f + (t + 1)) == field_at(old_rest, t + 1));
                    assert(field_at(old_rest, t + 1) == field_at(
                        old_rest.skip(comma_idx(old_rest) + 1),
                        t,
                    ));
                }
            }
        } else {
            pos = c;
            proof {
                rest = line@.skip(pos as int);
            }
        }
    }
    let s = MomentSample {
        delay_mean: vals[0],
        delay_std_dev: vals[1],
        delay_skewness: vals[2],
        transition_mean: vals[3],
        transition_std_dev: vals[4],
        transition_skewness: vals[5],
    };
    proof {
        assert(sample_of_line(line@, scale_exp10 as int) == Some(s));
    }
    Some(s)
}

/// Reads one moment file: skip the header line, read the first data line.
/// Exactly the reading that [`moment_of_text`] defines.
pub fn parse_moment_file(content: &[u8], scale_exp10: i32) -> (r: Option<MomentSample>)
    ensures
        r == moment_of_text(content@, scale_exp10 as int),
{
    let len = content.len();
    let mut i: usize = 0;
    while i < len && content[i] != 10
        invariant
            i <= len,
            len == content@.len(),
            forall|t: int| 0 <= t < i ==> (#[trigger] content@[t]) != 10,
        decreases len - i,
    {
        i += 1;
    }
    proof {
        lemma_nl_idx_at(content@, i as int);
    }
    if i == len {
        return None;
    }
    let start = i + 1;
    let mut j: usize = start;
    while j < len && content[j] != 10
        invariant
            start <= j <= len,
            len == content@.len(),
            forall|t: int| start <= t < j ==> (#[trigger] content@[t]) != 10,
        decreases len - j,
    {
        j += 1;
    }
    let ghost rest = content@.skip(start as int);
    proof {
        assert(forall|t: int|
            0 <= t < rest.len() ==> #[trigger] rest[t] == content@[t + start]);
        lemma_nl_idx_at(rest, j as int - start as int);
        assert(nl_idx(rest) == j as int - start as int);
        assert(rest.take(j as int - start as int) =~= content@.subrange(
            start as int,
            j as int,
        ));
        assert(data_line(content@) == Some(content@.subrange(start as int, j as int)));
    }
    let line = subrange_vec(content, start, j);
    parse_data_line(line.as_slice(), scale_exp10)
}

/// Full identity of one missing moment file, so the exact simulation can be
/// regenerated.
#[derive(Clone, Debug, PartialEq)]
pub struct SkipRecord {
    pub corner: String,
    pub cell: String,
    pub pin: String,
    pub related_pin: String,
    pub ordinal: String,
    pub index: usize,
}

/// A moment file that was present but did not read: fatal to the run.
#[derive(Clone, Copy, Debug, PartialEq, Eq, Structural)]
pub struct MalformedMoment {
    pub index: usize,
}

/// The ascending indices at which no file content was found.
pub open spec fn missing_indices(texts: Seq<Option<Seq<u8>>>) -> Seq<int>
    decreases texts.len(),
{
    if texts.len() == 0 {
        Seq::empty()
    } else {
        missing_indices(texts.drop_last()) + (if texts.last() is None {
            seq![texts.len() - 1]
        } else {
            Seq::empty()
        })
    }
}

pub open spec fn texts_view(texts: Seq<Option<Vec<u8>>>) -> Seq<Option<Seq<u8>>> {
    texts.map_values(
        |t: Option<Vec<u8>>|
            match t {
                Some(v) => Some(v@),
                None => None,
            },
    )
}

/// Reads the per-index moment files of one arc: `texts[i]` is the content of
/// index `i`'s file, or nothing where the file is absent. An absent file is
/// non-fatal: its slot stays empty and its full identity is recorded, in
/// index order. A file that does not read aborts the run with the first such
/// index.
#[verifier::rlimit(100)]
pub fn collect_moments(
    texts: &Vec<Option<Vec<u8>>>,
    scale_exp10: i32,
    corner: &str,
    cell: &str,
    pin: &str,
    related_pin: &str,
    ordinal: &str,
) -> (r: Result<(Vec<Option<MomentSample>>, Vec<SkipRecord>), MalformedMoment>)
    ensures
        match r {
            Ok(out) => {
                &&& out.0@.len() == texts@.len()
                &&& forall|i: int|
                    0 <= i < texts@.len() && (#[trigger] texts@[i]) is Some ==> out.0@[i]
                        == moment_of_text(texts@[i]->0@, scale_exp10 as int) && out.0@[i]
                        is Some
                &&& forall|i: int|
                    0 <= i < texts@.len() && (#[trigger] texts@[i]) is None ==> out.0@[i]
                        is None
                &&& samples_bounded(out.0@)
                &&& out.1@.len() == missing_indices(texts_view(texts@)).len()
                &&& forall|t: int|
                    0 <= t < out.1@.len() ==> (#[trigger] out.1@[t]).index as int
                        == missing_indices(texts_view(texts@))[t] && out.1@[t].corner@
                        == corner@ && out.1@[t].cell@ == cell@ && out.1@[t].pin@ == pin@
                        && out.1@[t].related_pin@ == related_pin@ && out.1@[t].ordinal@
                        == ordinal@
            },
            Err(e) => {
                &&& e.index < texts@.len()
                &&& texts@[e.index as int] is Some
                &&& moment_of_text(texts@[e.index as int]->0@, scale_exp10 as int) is None
                &&& forall|i: int|
                    0 <= i < e.index && (#[trigger] texts@[i]) is Some ==> moment_of_text(
                        texts@[i]->0@,
                        scale_exp10 as int,
                    ) is Some
            },
        },
{
    let n = texts.len();
    let mut moms: Vec<Option<MomentSample>> = Vec::new();
    let mut skips: Vec<SkipRecord> = Vec::new();
    for i in 0..n
        invariant
            n == texts@.len(),
            moms@.len() == i,
            forall|t: int|
                0 <= t < i && (#[trigger] texts@[t]) is Some ==> moms@[t] == moment_of_text(
                    texts@[t]->0@,
                    scale_exp10 as int,
                ) && moms@[t] is Some,
            forall|t: int| 0 <= t < i && (#[trigger] texts@[t]) is None ==> moms@[t] is None,
            samples_bounded(moms@),
            skips@.len() == missing_indices(texts_view(texts@).take(i as int)).len(),
            forall|t: int|
                0 <= t < skips@.len() ==> (#[trigger] skips@[t]).index as int
                    == missing_indices(texts_view(texts@).take(i as int))[t]
                    && skips@[t].corner@ == corner@ && skips@[t].cell@ == cell@
                    && skips@[t].pin@ == pin@ && skips@[t].related_pin@ == related_pin@
                    && skips@[t].ordinal@ == ordinal@,
    {
        proof {
            assert(texts_view(texts@).take(i + 1).drop_last() =~= texts_view(texts@).take(
                i as int,
            ));
        }
        match &texts[i] {
            Some(txt) => {
                match parse_moment_file(txt.as_slice(), scale_exp10) {
                    Some(m) => {
                        proof {
                            let content = texts@[i as int]->0@;
                            assert(data_line(content) is Some);
                            lemma_sample_in_range(data_line(content)->0, scale_exp10 as int);
                        }
                        moms.push(Some(m));
                    },
                    None => {
                        return Err(MalformedMoment { index: i });
                    },
                }
            },
            None => {
                moms.push(None);
                skips.push(
                    SkipRecord {
                        corner: corner.to_owned(),
                        cell: cell.to_owned(),
                        pin: pin.to_owned(),
                        related_pin: related_pin.to_owned(),
                        ordinal: ordinal.to_owned(),
                        index: i,
                    },
                );
            },
        }
    }
    proof {
        assert(texts_view(texts@).take(n as int) =~= texts_view(texts@));
    }
    Ok((moms, skips))
}

/// Ten to the `k`, executably, for the exponents a value can carry.
fn pow10_exec(k: u32) -> (p: i64)
    requires
        k <= 18,
    ensures
        p == pow10(k as int),
{
    let mut p: i64 = 1;
    let mut j: u32 = 0;
    while j < k
        invariant
            j <= k <= 18,
            p == pow10(j as int),
        decreases k - j,
    {
        proof {
            lemma_pow10_vals();
            lemma_pow10_pos(j as int);
            lemma_pow10_mono(j as int + 1, 18);
        }
        p = p * 10;
        j += 1;
    }
    p
}

} // verus!
