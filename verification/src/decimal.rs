use vstd::prelude::*;
use vstd::arithmetic::div_mod::lemma_fundamental_div_mod_converse;
use vstd::arithmetic::div_mod::lemma_fundamental_div_mod;

verus! {

/// Number of data units in one: a data coordinate counts millionths.
pub const UNITS_PER_ONE: i64 = 1_000_000;
/// Number of axis units in one data unit.
pub const AXIS_PER_UNIT: i128 = 10;
/// Number of axis units in one: an axis value counts ten-millionths.
pub const AXIS_PER_ONE: i128 = 10_000_000;
/// Most decimal places that an axis value can have.
pub const MAX_DECIMAL_PLACES: u8 = 7;
/// No magnitude that the axis arithmetic meets exceeds this.
pub const AXIS_LIMIT: i128 = 1_000_000_000_000_000_000_000;

/// Ten to the power `n`.
pub open spec fn pow10(n: nat) -> int
    decreases n,
{
    if n == 0 {
        1
    } else {
        10 * pow10((n - 1) as nat)
    }
}

/// The first nine powers of ten.
pub proof fn lemma_pow10_values()
    ensures
        pow10(0) == 1,
        pow10(1) == 10,
        pow10(2) == 100,
        pow10(3) == 1_000,
        pow10(4) == 10_000,
        pow10(5) == 100_000,
        pow10(6) == 1_000_000,
        pow10(7) == 10_000_000,
        pow10(8) == 100_000_000,
{
    reveal_with_fuel(pow10, 10);
}

/// A greater exponent gives a greater or equal power of ten, and every power
/// is positive.
pub proof fn lemma_pow10_increasing(a: nat, b: nat)
    requires
        a <= b,
    ensures
        0 < pow10(a) <= pow10(b),
        pow10(19) == 10_000_000_000_000_000_000,
    decreases b,
{
    reveal_with_fuel(pow10, 20);
    if a < b {
        lemma_pow10_increasing(a, (b - 1) as nat);
    } else if a > 0 {
        lemma_pow10_increasing((a - 1) as nat, (a - 1) as nat);
    }
}

/// Ten to the power `n`, for `n` up to eight.
pub fn power_of_ten(n: u8) -> (p: i128)
    requires
        n <= 8,
    ensures
        p == pow10(n as nat),
        1 <= p <= 100_000_000,
{
    proof {
        lemma_pow10_values();
    }
    match n {
        0 => 1,
        1 => 10,
        2 => 100,
        3 => 1_000,
        4 => 10_000,
        5 => 100_000,
        6 => 1_000_000,
        7 => 10_000_000,
        _ => 100_000_000,
    }
}

/// `n / d` rounded down to a whole number.
pub fn floor_div(n: i128, d: i128) -> (q: i128)
    requires
        d > 0,
        -AXIS_LIMIT <= n <= AXIS_LIMIT,
        d <= AXIS_LIMIT,
    ensures
        q == n / d,
        q * d <= n < q * d + d,
        -AXIS_LIMIT <= q <= AXIS_LIMIT,
{
    proof {
        lemma_fundamental_div_mod(n as int, d as int);
        assert(0 <= (n as int) % (d as int) < d);
        assert((n / d) * d == d * (n / d)) by (nonlinear_arith);
    }
    if n >= 0 {
        let q: u128 = (n as u128) / (d as u128);
        proof {
            assert(0 <= n as int / d as int <= n) by (nonlinear_arith)
                requires
                    n >= 0,
                    d > 0,
                    n == d * (n / d) + n % d,
                    0 <= n % d < d,
            ;
        }
        q as i128
    } else {
        let m: u128 = (-n) as u128;
        let dd: u128 = d as u128;
        let c: u128 = (m + (dd - 1)) / dd;
        proof {
            let x = m + dd - 1;
            lemma_fundamental_div_mod(x as int, dd as int);
            let r = x % (dd as int);
            assert(x == dd * c + r);
            assert(0 <= r < dd);
            assert(n == (-c) * d + (d - 1 - r)) by (nonlinear_arith)
                requires
                    m + dd - 1 == dd * c + r,
                    m == -n,
                    dd == d,
            ;
            lemma_fundamental_div_mod_converse(n as int, d as int, -(c as int), d - 1 - r);
            assert(0 <= c <= m) by (nonlinear_arith)
                requires
                    m + dd - 1 == dd * c + r,
                    0 <= r < dd,
                    dd >= 1,
                    m >= 1,
            ;
        }
        -(c as i128)
    }
}

/// `n / d` rounded up to a whole number.
pub open spec fn ceil_quotient(n: int, d: int) -> int {
    -((-n) / d)
}

/// `n / d` rounded up to a whole number.
pub fn ceil_div(n: i128, d: i128) -> (q: i128)
    requires
        d > 0,
        -AXIS_LIMIT <= n <= AXIS_LIMIT,
        d <= AXIS_LIMIT,
    ensures
        q == ceil_quotient(n as int, d as int),
        q * d - d < n <= q * d,
        -AXIS_LIMIT <= q <= AXIS_LIMIT,
{
    let f: i128 = floor_div(-n, d);
    proof {
        assert((-f) * d == -(f * d)) by (nonlinear_arith);
    }
    -f
}

/// No magnitude that rounding to the nearest meets exceeds this.
pub const ROUND_LIMIT: i128 = 1_000_000_000_000_000_000_000_000_000_000;

/// `n / d` rounded to the nearest whole number, a half away from zero, for
/// `d` positive.
pub open spec fn round_quotient(n: int, d: int) -> int {
    if n >= 0 {
        (2 * n + d) / (2 * d)
    } else {
        -((2 * (-n) + d) / (2 * d))
    }
}

/// The rounded quotient lies at most a half away from the true one.
pub proof fn lemma_round_quotient(n: int, d: int)
    requires
        d > 0,
    ensures
        2 * n - d <= 2 * (round_quotient(n, d) * d) <= 2 * n + d,
        n >= 0 ==> 0 <= round_quotient(n, d) <= n,
        n <= 0 ==> n <= round_quotient(n, d) <= 0,
{
    let m = if n >= 0 {
        n
    } else {
        -n
    };
    let c = (2 * m + d) / (2 * d);
    lemma_fundamental_div_mod(2 * m + d, 2 * d);
    let r = (2 * m + d) % (2 * d);
    assert(0 <= r < 2 * d);
    assert(2 * m + d == (2 * d) * c + r);
    assert(2 * (c * d) == (2 * d) * c) by (nonlinear_arith);
    assert(2 * ((-c) * d) == -((2 * d) * c)) by (nonlinear_arith);
    assert(0 <= c <= m) by (nonlinear_arith)
        requires
            2 * m + d == (2 * d) * c + r,
            0 <= r < 2 * d,
            d >= 1,
            m >= 0,
    ;
}

/// A whole multiple of the divisor is its own rounded quotient.
pub proof fn lemma_round_quotient_exact(k: int, d: int)
    requires
        d > 0,
    ensures
        round_quotient(k * d, d) == k,
{
    let a = if k >= 0 {
        k
    } else {
        -k
    };
    assert(2 * (a * d) + d == a * (2 * d) + d) by (nonlinear_arith);
    lemma_fundamental_div_mod_converse(2 * (a * d) + d, 2 * d, a, d);
    assert(k >= 0 ==> k * d >= 0) by (nonlinear_arith)
        requires
            d > 0,
    ;
    assert(k < 0 ==> k * d < 0 && -(k * d) == a * d) by (nonlinear_arith)
        requires
            d > 0,
            a == -k || k >= 0,
    ;
}

/// `n / d` rounded to the nearest whole number, a half away from zero.
pub fn round_div(n: i128, d: i128) -> (q: i128)
    requires
        d > 0,
        -ROUND_LIMIT <= n <= ROUND_LIMIT,
        d <= ROUND_LIMIT,
    ensures
        q == round_quotient(n as int, d as int),
        2 * n - d <= 2 * (q * d) <= 2 * n + d,
        -ROUND_LIMIT <= q <= ROUND_LIMIT,
{
    proof {
        lemma_round_quotient(n as int, d as int);
    }
    let dd: u128 = d as u128;
    if n >= 0 {
        let c: u128 = (2 * (n as u128) + dd) / (2 * dd);
        c as i128
    } else {
        let m: u128 = (-n) as u128;
        let c: u128 = (2 * m + dd) / (2 * dd);
        -(c as i128)
    }
}

/// The character of a single decimal digit.
pub open spec fn digit_char(d: int) -> char {
    if d == 0 {
        '0'
    } else if d == 1 {
        '1'
    } else if d == 2 {
        '2'
    } else if d == 3 {
        '3'
    } else if d == 4 {
        '4'
    } else if d == 5 {
        '5'
    } else if d == 6 {
        '6'
    } else if d == 7 {
        '7'
    } else if d == 8 {
        '8'
    } else {
        '9'
    }
}

/// The decimal digits of `n`, most significant first, without leading zeros.
pub open spec fn natural_text(n: nat) -> Seq<char>
    decreases n,
{
    if n < 10 {
        seq![digit_char(n as int)]
    } else {
        natural_text(n / 10).push(digit_char((n % 10) as int))
    }
}

/// The decimal text of a whole number, with a minus sign where it is negative.
pub open spec fn integer_text(v: int) -> Seq<char> {
    if v < 0 {
        seq!['-'] + natural_text((-v) as nat)
    } else {
        natural_text(v as nat)
    }
}

/// The digits behind the decimal point for the fraction `frac / (10 * unit)`,
/// down to the last one that is not zero.
pub open spec fn fraction_text(frac: nat, unit: nat) -> Seq<char>
    decreases unit,
{
    if frac == 0 || unit == 0 {
        Seq::empty()
    } else {
        seq![digit_char((frac / unit) as int)] + fraction_text(frac % unit, unit / 10)
    }
}

/// The shortest decimal text of an axis value: a minus sign where it is
/// negative, the whole part, and, where there is a fraction, a point and the
/// fraction's digits.
pub open spec fn decimal_text(v: int) -> Seq<char> {
    let m = if v < 0 {
        -v
    } else {
        v
    };
    let whole = natural_text((m / (AXIS_PER_ONE as int)) as nat);
    let frac = (m % (AXIS_PER_ONE as int)) as nat;
    let sign = if v < 0 {
        seq!['-']
    } else {
        Seq::empty()
    };
    if frac == 0 {
        sign + whole
    } else {
        sign + whole + seq!['.'] + fraction_text(frac, (AXIS_PER_ONE / 10) as nat)
    }
}

/// A number below ten to the power `k` has at most `k` digits.
pub proof fn lemma_natural_text_len(n: nat, k: nat)
    requires
        n < pow10(k),
        k >= 1,
    ensures
        1 <= natural_text(n).len() <= k,
    decreases n,
{
    reveal_with_fuel(pow10, 2);
    if n >= 10 {
        if k == 1 {
            assert(pow10(1) == 10);
        } else {
            assert(pow10(k) == 10 * pow10((k - 1) as nat));
            lemma_natural_text_len(n / 10, (k - 1) as nat);
        }
    }
}

/// A fraction written from the place of `pow10(p)` down has at most `p + 1` digits.
pub proof fn lemma_fraction_text_len(frac: nat, p: nat)
    ensures
        fraction_text(frac, pow10(p) as nat).len() <= p + 1,
    decreases p,
{
    reveal_with_fuel(pow10, 2);
    reveal_with_fuel(fraction_text, 2);
    lemma_pow10_increasing(p, p);
    let unit = pow10(p) as nat;
    if frac != 0 {
        if p == 0 {
            assert(unit == 1);
            assert(fraction_text(frac % unit, unit / 10) =~= Seq::empty());
        } else {
            assert(pow10(p) == 10 * pow10((p - 1) as nat));
            assert(unit / 10 == pow10((p - 1) as nat));
            lemma_fraction_text_len(frac % unit, (p - 1) as nat);
        }
    }
}

/// Most characters that the text of an axis value takes.
pub const MAX_TEXT_LENGTH: usize = 28;

/// The text of an axis value within the limit is at most 28 characters long.
pub proof fn lemma_decimal_text_len(v: int)
    requires
        -AXIS_LIMIT <= v <= AXIS_LIMIT,
    ensures
        decimal_text(v).len() <= MAX_TEXT_LENGTH,
{
    let m = if v < 0 {
        -v
    } else {
        v
    };
    lemma_pow10_increasing(19, 19);
    lemma_pow10_values();
    lemma_natural_text_len((m / (AXIS_PER_ONE as int)) as nat, 19);
    lemma_fraction_text_len((m % (AXIS_PER_ONE as int)) as nat, 6);
}

fn digit_str(d: u128) -> (s: &'static str)
    requires
        d < 10,
    ensures
        s@ == seq![digit_char(d as int)],
{
    proof {
        reveal_strlit("0");
        reveal_strlit("1");
        reveal_strlit("2");
        reveal_strlit("3");
        reveal_strlit("4");
        reveal_strlit("5");
        reveal_strlit("6");
        reveal_strlit("7");
        reveal_strlit("8");
        reveal_strlit("9");
    }
    let s: &'static str = match d {
        0 => "0",
        1 => "1",
        2 => "2",
        3 => "3",
        4 => "4",
        5 => "5",
        6 => "6",
        7 => "7",
        8 => "8",
        _ => "9",
    };
    proof {
        assert(s@ =~= seq![digit_char(d as int)]);
    }
    s
}

fn append_natural(text: &mut String, n: u128)
    ensures
        final(text)@ == old(text)@ + natural_text(n as nat),
    decreases n,
{
    if n >= 10 {
        append_natural(text, n / 10);
    }
    text.append(digit_str(n % 10));
    proof {
        assert(final(text)@ =~= old(text)@ + natural_text(n as nat));
    }
}

fn append_fraction(text: &mut String, frac: u128, unit: u128, places: u8)
    requires
        frac < 10 * unit,
        places <= 8,
        unit == pow10(places as nat),
    ensures
        final(text)@ == old(text)@ + fraction_text(frac as nat, unit as nat),
    decreases unit,
{
    proof {
        lemma_pow10_values();
        reveal_with_fuel(pow10, 2);
    }
    if frac == 0 || unit == 0 {
        proof {
            assert(final(text)@ =~= old(text)@ + fraction_text(frac as nat, unit as nat));
        }
        return ;
    }
    proof {
        lemma_fundamental_div_mod(frac as int, unit as int);
        assert(frac / unit < 10) by (nonlinear_arith)
            requires
                frac == unit * (frac / unit) + frac % unit,
                0 <= frac % unit,
                frac < 10 * unit,
                unit > 0,
        ;
        lemma_fundamental_div_mod(unit as int, 10);
    }
    text.append(digit_str(frac / unit));
    if places == 0 {
        proof {
            assert(fraction_text((frac % unit) as nat, (unit / 10) as nat) =~= Seq::empty());
            assert(final(text)@ =~= old(text)@ + fraction_text(frac as nat, unit as nat));
        }
        return ;
    }
    append_fraction(text, frac % unit, unit / 10, places - 1);
    proof {
        assert(final(text)@ =~= old(text)@ + fraction_text(frac as nat, unit as nat));
    }
}

/// Writes an axis value as its shortest decimal text.
pub fn format_decimal(v: i128) -> (text: String)
    requires
        -AXIS_LIMIT <= v <= AXIS_LIMIT,
    ensures
        text@ == decimal_text(v as int),
        text@.len() <= MAX_TEXT_LENGTH,
{
    proof {
        lemma_decimal_text_len(v as int);
    }
    let mut text: String = String::new();
    let m: u128 = if v < 0 {
        proof {
            reveal_strlit("-");
        }
        text.append("-");
        (-v) as u128
    } else {
        v as u128
    };
    let one: u128 = 10_000_000;
    append_natural(&mut text, m / one);
    let frac: u128 = m % one;
    if frac != 0 {
        proof {
            reveal_strlit(".");
            lemma_pow10_values();
        }
        text.append(".");
        append_fraction(&mut text, frac, one / 10, 6);
    }
    proof {
        assert(text@ =~= decimal_text(v as int));
    }
    text
}

/// Number of characters that a whole number takes when written out, the
/// minus sign included.
pub fn get_numbers_count(value: i64) -> (count: u8)
    ensures
        count == integer_text(value as int).len(),
        1 <= count <= 21,
{
    let mut m: u64 = if value < 0 {
        ((-(value as i128)) as u64)
    } else {
        value as u64
    };
    let ghost start = m;
    let base: u8 = if value < 0 {
        1
    } else {
        0
    };
    let mut count: u8 = base + 1;
    proof {
        reveal_with_fuel(pow10, 2);
    }
    while m >= 10
        invariant
            base <= 1,
            base < count <= base + 20,
            pow10((count - base - 1) as nat) * m <= start,
            count - 1 + natural_text(m as nat).len() == integer_text(value as int).len(),
        decreases m,
    {
        proof {
            let k = (count - base - 1) as nat;
            lemma_pow10_increasing(k, k);
            assert(pow10(k + 1) * (m / 10) <= pow10(k) * m) by (nonlinear_arith)
                requires
                    pow10(k + 1) == 10 * pow10(k),
                    10 * (m / 10) <= m,
                    pow10(k) > 0,
            ;
            if k >= 19 {
                lemma_pow10_increasing(19, k);
                assert(pow10(k) * m >= pow10(19) * 10) by (nonlinear_arith)
                    requires
                        pow10(k) >= pow10(19),
                        pow10(19) > 0,
                        m >= 10,
                ;
            }
        }
        m = m / 10;
        count += 1;
    }
    count
}

} // verus!
