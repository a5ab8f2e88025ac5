//! Amounts as decimal text: reading `"-12.5"` as a count of ten-thousandths,
//! and writing such a count back as the shortest decimal that names it.
use vstd::prelude::*;
use vstd::string::StringExecFns;

verus! {

/// Ten-thousandths in one unit of currency.
pub const UNITS_PER_WHOLE: u64 = 10000;

/// The largest whole part that a count of ten-thousandths in an `i64` can have.
const MAX_WHOLE: u64 = 922337203685477;

pub open spec fn fits_i64(x: int) -> bool {
    i64::MIN <= x <= i64::MAX
}

pub open spec fn is_digit(b: u8) -> bool {
    '0' as u8 <= b && b <= '9' as u8
}

pub open spec fn all_digits(s: Seq<u8>) -> bool {
    forall|i: int| 0 <= i < s.len() ==> is_digit(#[trigger] s[i])
}

/// The number that a string of decimal digits spells.
pub open spec fn digits_value(s: Seq<u8>) -> nat
    decreases s.len(),
{
    if s.len() == 0 {
        0
    } else {
        digits_value(s.drop_last()) * 10 + (s.last() - '0' as u8) as nat
    }
}

pub open spec fn pow10(n: nat) -> nat
    decreases n,
{
    if n == 0 {
        1
    } else {
        10 * pow10((n - 1) as nat)
    }
}

/// The text without its leading sign, if it has one.
pub open spec fn unsigned_part(s: Seq<u8>) -> Seq<u8> {
    if s.len() > 0 && (s[0] == '-' as u8 || s[0] == '+' as u8) {
        s.drop_first()
    } else {
        s
    }
}

/// What stands before the first point.
pub open spec fn whole_part(body: Seq<u8>) -> Seq<u8> {
    match body.index_of_first('.' as u8) {
        Some(k) => body.take(k),
        None => body,
    }
}

/// What stands after the first point.
pub open spec fn fraction_part(body: Seq<u8>) -> Seq<u8> {
    match body.index_of_first('.' as u8) {
        Some(k) => body.skip(k + 1),
        None => Seq::empty(),
    }
}

/// The amount, in ten-thousandths, that the text names: an optional sign,
/// decimal digits, and optionally a point followed by at most four more
/// digits, with at least one digit in all; `None` for any other text, or
/// for an amount outside the range of `i64`.
pub open spec fn amount_value(s: Seq<u8>) -> Option<int> {
    let body = unsigned_part(s);
    let w = whole_part(body);
    let f = fraction_part(body);
    if all_digits(w) && all_digits(f) && f.len() <= 4 && w.len() + f.len() > 0 {
        let m = (digits_value(w) * 10000 + digits_value(f) * pow10((4 - f.len()) as nat)) as int;
        let v = if s.len() > 0 && s[0] == '-' as u8 {
            -m
        } else {
            m
        };
        if fits_i64(v) {
            Some(v)
        } else {
            None
        }
    } else {
        None
    }
}

/// A longer string of digits spells at least as much as its prefix.
proof fn lemma_digits_value_prefix(s: Seq<u8>, j: int)
    requires
        0 <= j <= s.len(),
    ensures
        digits_value(s.take(j)) <= digits_value(s),
    decreases s.len() - j,
{
    if j < s.len() {
        lemma_digits_value_prefix(s, j + 1);
        assert(s.take(j + 1).drop_last() =~= s.take(j));
    } else {
        assert(s.take(j) =~= s);
    }
}

/// A string of `n` digits spells less than `10^n`.
proof fn lemma_digits_value_bound(s: Seq<u8>)
    requires
        all_digits(s),
    ensures
        digits_value(s) < pow10(s.len()),
    decreases s.len(),
{
    if s.len() > 0 {
        let p = s.drop_last();
        assert(all_digits(p)) by {
            assert(forall|i: int| 0 <= i < p.len() ==> p[i] == s[i]);
        }
        lemma_digits_value_bound(p);
        let d = (s.last() - '0' as u8) as nat;
        assert(is_digit(s[s.len() - 1]));
        let a = digits_value(p);
        let b = pow10(p.len());
        assert(a * 10 + d < 10 * b) by (nonlinear_arith)
            requires
                a < b,
                d <= 9,
        ;
    }
}

/// Appending a digit.
proof fn lemma_digits_value_push(s: Seq<u8>, i: int)
    requires
        0 <= i < s.len(),
    ensures
        digits_value(s.take(i + 1)) == digits_value(s.take(i)) * 10 + (s[i] - '0' as u8) as nat,
{
    assert(s.take(i + 1).drop_last() =~= s.take(i));
}

/// The position of the first point in `s` at or after `from`, or the
/// length of `s` where there is none.
fn find_point(s: &[u8], from: usize) -> (k: usize)
    requires
        from <= s@.len(),
    ensures
        from <= k <= s@.len(),
        match s@.skip(from as int).index_of_first('.' as u8) {
            Some(j) => k == from + j,
            None => k == s@.len(),
        },
{
    let ghost rest = s@.skip(from as int);
    proof { rest.index_of_first_ensures('.' as u8); }
    let mut k = from;
    while k < s.len() && s[k] != '.' as u8
        invariant
            from <= k <= s@.len(),
            rest == s@.skip(from as int),
            forall|j: int| 0 <= j < k - from ==> rest[j] != '.' as u8,
        decreases s@.len() - k,
    {
        assert(rest[k - from] == s@[k as int]);
        k = k + 1;
    }
    proof {
        rest.index_of_first_ensures('.' as u8);
        if k < s@.len() {
            assert(rest[k - from] == '.' as u8);
            assert(rest.contains('.' as u8));
        } else {
            assert forall|j: int| 0 <= j < rest.len() implies rest[j] != '.' as u8 by {}
            assert(!rest.contains('.' as u8));
        }
    }
    k
}

/// The number that `s[lo..hi]` spells, where it is all digits and spells at
/// most `limit`; else `None`.
fn digits_in(s: &[u8], lo: usize, hi: usize, limit: u64) -> (r: Option<u64>)
    requires
        lo <= hi <= s@.len(),
        limit <= MAX_WHOLE,
    ensures
        match r {
            Some(v) => all_digits(s@.subrange(lo as int, hi as int)) && v == digits_value(
                s@.subrange(lo as int, hi as int),
            ) && v <= limit,
            None => !all_digits(s@.subrange(lo as int, hi as int)) || digits_value(
                s@.subrange(lo as int, hi as int),
            ) > limit,
        },
{
    let ghost run = s@.subrange(lo as int, hi as int);
    let mut i = lo;
    let mut v: u64 = 0;
    while i < hi
        invariant
            lo <= i <= hi <= s@.len(),
            limit <= MAX_WHOLE,
            run == s@.subrange(lo as int, hi as int),
            all_digits(run.take(i - lo)),
            v == digits_value(run.take(i - lo)),
            v <= limit,
        decreases hi - i,
    {
        let b = s[i];
        assert(run[i - lo] == b);
        if b < '0' as u8 || b > '9' as u8 {
            return None;
        }
        proof { lemma_digits_value_push(run, i - lo); }
        v = v * 10 + (b - '0' as u8) as u64;
        i = i + 1;
        assert(forall|j: int| 0 <= j < i - lo ==> #[trigger] run.take(i - lo)[j] == run[j]);
        if v > limit {
            proof {
                if all_digits(run) {
                    lemma_digits_value_prefix(run, i - lo);
                }
            }
            return None;
        }
    }
    assert(run.take(i - lo) =~= run);
    Some(v)
}

/// The character of the decimal digit `d`.
pub open spec fn digit_char(d: nat) -> char {
    "0123456789"@[d as int]
}

/// `n` in decimal, without leading zeros.
pub open spec fn decimal_text(n: nat) -> Seq<char>
    decreases n,
{
    if n < 10 {
        seq![digit_char(n)]
    } else {
        decimal_text(n / 10).push(digit_char(n % 10))
    }
}

/// The text without the zeros at its end.
pub open spec fn trim_zeros(s: Seq<char>) -> Seq<char>
    decreases s.len(),
{
    if s.len() > 0 && s.last() == '0' {
        trim_zeros(s.drop_last())
    } else {
        s
    }
}

/// `f` as four decimal digits, with leading zeros.
pub open spec fn four_digits(f: nat) -> Seq<char> {
    seq![digit_char(f / 1000), digit_char(f / 100 % 10), digit_char(f / 10 % 10), digit_char(f % 10)]
}

/// The shortest decimal text of an amount in ten-thousandths: a minus sign
/// for a negative amount, the whole part, and where the fraction is not
/// zero a point and its digits without trailing zeros (`120000` is `"12"`,
/// `-15000` is `"-1.5"`).
pub open spec fn amount_text(x: int) -> Seq<char> {
    let m = if x < 0 {
        -x
    } else {
        x
    };
    let sign = if x < 0 {
        seq!['-']
    } else {
        Seq::empty()
    };
    let f = (m % 10000) as nat;
    let fraction = if f == 0 {
        Seq::empty()
    } else {
        seq!['.'] + trim_zeros(four_digits(f))
    };
    sign + decimal_text((m / 10000) as nat) + fraction
}

fn digit_str(d: u64) -> (r: &'static str)
    requires
        d < 10,
    ensures
        r@ == seq![digit_char(d as nat)],
{
    proof { reveal_strlit("0123456789"); }
    if d == 0 {
        proof { reveal_strlit("0"); }
        "0"
    } else if d == 1 {
        proof { reveal_strlit("1"); }
        "1"
    } else if d == 2 {
        proof { reveal_strlit("2"); }
        "2"
    } else if d == 3 {
        proof { reveal_strlit("3"); }
        "3"
    } else if d == 4 {
        proof { reveal_strlit("4"); }
        "4"
    } else if d == 5 {
        proof { reveal_strlit("5"); }
        "5"
    } else if d == 6 {
        proof { reveal_strlit("6"); }
        "6"
    } else if d == 7 {
        proof { reveal_strlit("7"); }
        "7"
    } else if d == 8 {
        proof { reveal_strlit("8"); }
        "8"
    } else {
        proof { reveal_strlit("9"); }
        "9"
    }
}

/// Appends `n` in decimal.
pub fn write_decimal(out: &mut String, n: u64)
    ensures
        final(out)@ == old(out)@ + decimal_text(n as nat),
    decreases n,
{
    if n >= 10 {
        write_decimal(out, n / 10);
    }
    out.append(digit_str(n % 10));
    assert(final(out)@ =~= old(out)@ + decimal_text(n as nat));
}

/// Appends the shortest decimal text of the amount `x` (see `amount_text`).
pub fn write_amount(out: &mut String, x: i64)
    ensures
        final(out)@ == old(out)@ + amount_text(x as int),
{
    let ghost start = out@;
    let m: u64 = if x < 0 {
        (0i128 - x as i128) as u64
    } else {
        x as u64
    };
    if x < 0 {
        out.append("-");
        proof { reveal_strlit("-"); }
    }
    write_decimal(out, m / UNITS_PER_WHOLE);
    let f = m % UNITS_PER_WHOLE;
    let ghost middle = out@;
    if f != 0 {
        out.append(".");
        proof { reveal_strlit("."); }
        let mut digits: Vec<u64> = vec![f / 1000, f / 100 % 10, f / 10 % 10, f % 10];
        let ghost full = four_digits(f as nat);
        let mut len: usize = 4;
        assert(full.take(4) =~= full);
        while len > 0 && digits[len - 1] == 0
            invariant
                0 <= len <= 4,
                digits@.len() == 4,
                full.len() == 4,
                forall|i: int| 0 <= i < 4 ==> digits@[i] < 10,
                forall|i: int| 0 <= i < 4 ==> full[i] == digit_char(#[trigger] digits@[i] as nat),
                trim_zeros(full.take(len as int)) == trim_zeros(full),
            decreases len,
        {
            proof {
                reveal_strlit("0123456789");
                assert(full.take(len as int).drop_last() =~= full.take(len - 1));
            }
            len = len - 1;
        }
        proof {
            reveal_strlit("0123456789");
            assert(full.take(4) =~= full);
        }
        let mut i: usize = 0;
        while i < len
            invariant
                0 <= i <= len <= 4,
                digits@.len() == 4,
                full.len() == 4,
                forall|j: int| 0 <= j < 4 ==> digits@[j] < 10,
                forall|j: int| 0 <= j < 4 ==> full[j] == digit_char(#[trigger] digits@[j] as nat),
                out@ == middle + seq!['.'] + full.take(i as int),
            decreases len - i,
        {
            out.append(digit_str(digits[i]));
            assert(full.take(i + 1) =~= full.take(i as int).push(full[i as int]));
            i = i + 1;
        }
        proof {
            if len > 0 {
                assert(digits@[len - 1] != 0);
                reveal_strlit("0123456789");
                assert(full.take(len as int).last() != '0');
            }
            assert(trim_zeros(full.take(len as int)) == full.take(len as int));
        }
    }
    assert(out@ =~= start + amount_text(x as int));
}

/// Reads an amount written as decimal text (see `amount_value`).
pub fn parse_amount(s: &[u8]) -> (r: Option<i64>)
    ensures
        match r {
            Some(v) => amount_value(s@) == Some(v as int),
            None => amount_value(s@) is None,
        },
{
    let n = s.len();
    let negative = n > 0 && s[0] == '-' as u8;
    let start: usize = if n > 0 && (s[0] == '-' as u8 || s[0] == '+' as u8) {
        1
    } else {
        0
    };
    let ghost body = unsigned_part(s@);
    assert(body =~= s@.skip(start as int));
    let k = find_point(s, start);
    proof { body.index_of_first_ensures('.' as u8); }
    let ghost w = whole_part(body);
    let ghost f = fraction_part(body);
    assert(w =~= s@.subrange(start as int, k as int));
    if k < n {
        assert(f =~= s@.subrange(k + 1, n as int));
    } else {
        assert(f =~= s@.subrange(n as int, n as int));
    }
    let whole = match digits_in(s, start, k, MAX_WHOLE) {
        Some(v) => v,
        None => {
            proof {
                if all_digits(w) {
                    let dw = digits_value(w);
                    let df = digits_value(f) * pow10((4 - f.len()) as nat);
                    assert(dw > 922337203685477);
                    assert(dw * 10000 + df > i64::MAX + 1) by (nonlinear_arith)
                        requires
                            dw > 922337203685477,
                            df >= 0,
                    ;
                    let m = (dw * 10000 + df) as int;
                    assert(!fits_i64(m) && !fits_i64(-m));
                    assert(amount_value(s@) is None);
                }
            }
            return None;
        },
    };
    let frac_start: usize = if k < n {
        k + 1
    } else {
        n
    };
    let frac_len = n - frac_start;
    if frac_len > 4 {
        return None;
    }
    let frac = match digits_in(s, frac_start, n, 9999) {
        Some(v) => v,
        None => {
            proof {
                if all_digits(f) {
                    lemma_digits_value_bound(f);
                    reveal_with_fuel(pow10, 5);
                }
            }
            return None;
        },
    };
    if k - start + frac_len == 0 {
        return None;
    }
    let scale: u64 = if frac_len == 0 {
        10000
    } else if frac_len == 1 {
        1000
    } else if frac_len == 2 {
        100
    } else if frac_len == 3 {
        10
    } else {
        1
    };
    proof {
        reveal_with_fuel(pow10, 5);
        assert(frac * scale <= 9999 * 10000) by (nonlinear_arith)
            requires
                frac <= 9999,
                scale <= 10000,
        ;
        assert(whole * 10000 <= 922337203685477 * 10000) by (nonlinear_arith)
            requires
                whole <= 922337203685477,
        ;
    }
    let magnitude: u64 = whole * UNITS_PER_WHOLE + frac * scale;
    if negative {
        if magnitude > 9223372036854775808u64 {
            return None;
        }
        Some((0i128 - magnitude as i128) as i64)
    } else {
        if magnitude > 9223372036854775807u64 {
            return None;
        }
        Some(magnitude as i64)
    }
}

} // verus!
