//! Amounts of money, exact to a billionth of a dollar.

use vstd::prelude::*;

use crate::text::{
    all_digits, begins, chars_of, decimal, decimals_read_back, digit_char, digits_in, digits_number, drop_prefix,
    find_char, find_first, first_is_found, nothing_is_found, number_text, starts_with,
};

verus! {

/// An amount of US dollars, in billionths.
#[derive(Debug, Clone, Copy, PartialEq, Eq, Structural)]
pub struct Usd {
    pub nanos: i64,
}

/// What twenty-five times the least number of fifty-three bits is.
pub const LEAST_LIFTED: u128 = 112_589_990_684_262_400;

/// A number doubled until it reaches that.
pub open spec fn lifted(x: int) -> int
    decreases (if x < LEAST_LIFTED { LEAST_LIFTED - x } else { 0 }),
{
    if x <= 0 || x >= LEAST_LIFTED {
        x
    } else {
        lifted(2 * x)
    }
}

/// Whether the binary fraction of fifty-three bits that is nearest to `whole` and a
/// half cents rounds up to the next cent: it lies above the half, or it is the half
/// and the next cent is even. In two-hundredths of a dollar the amount is an odd
/// number; it is such a fraction where twenty-five divides that number, and the
/// nearest one lies above it where less than half of twenty-five is missing.
pub open spec fn half_goes_up(whole: int) -> bool {
    let odd = 2 * whole + 1;
    if odd % 25 == 0 {
        whole % 2 == 1
    } else {
        lifted(odd) % 25 > 12
    }
}

/// The cents nearest to an amount of billionths. An amount in the middle of two
/// goes where its nearest binary fraction goes, as in common notations for numbers:
/// 0.125 is 0.12, 0.145 is 0.14 and 0.165 is 0.17.
pub open spec fn cents(nanos: int) -> int {
    let whole = nanos / 10_000_000;
    let rest = nanos % 10_000_000;
    if rest > 5_000_000 || (rest == 5_000_000 && half_goes_up(whole)) {
        whole + 1
    } else {
        whole
    }
}

fn rounds_up(whole: u128) -> (b: bool)
    requires
        whole <= u64::MAX,
    ensures
        b == half_goes_up(whole as int),
{
    let odd: u128 = 2 * whole + 1;
    if odd % 25 == 0 {
        return whole % 2 == 1;
    }
    let mut x: u128 = odd;
    while x < LEAST_LIFTED
        invariant
            0 < x,
            lifted(x as int) == lifted(odd as int),
        decreases (if x < LEAST_LIFTED { LEAST_LIFTED - x } else { 0 }),
    {
        x = 2 * x;
    }
    x % 25 > 12
}

/// A number below a hundred, in two digits.
pub open spec fn two_digits(n: int) -> Seq<char> {
    if n < 10 {
        "0"@ + decimal(n)
    } else {
        decimal(n)
    }
}

impl Usd {
    pub open spec fn size(self) -> int {
        if self.nanos < 0 {
            -(self.nanos as int)
        } else {
            self.nanos as int
        }
    }

    /// The amount in dollars with two decimals, as in `0.42`.
    pub open spec fn dollars(self) -> Seq<char> {
        let c = cents(self.size());
        let text = decimal(c / 100) + "."@ + two_digits(c % 100);
        if self.nanos < 0 {
            "-"@ + text
        } else {
            text
        }
    }

    pub fn from_nanos(nanos: i64) -> (r: Usd)
        ensures
            r.nanos == nanos,
    {
        Usd { nanos }
    }

    fn magnitude(self) -> (n: u128)
        ensures
            n == self.size(),
    {
        if self.nanos < 0 {
            (-(self.nanos as i128)) as u128
        } else {
            self.nanos as u128
        }
    }

    pub fn to_dollars(self) -> (r: String)
        ensures
            r@ == self.dollars(),
    {
        let n: u128 = self.magnitude();
        let whole: u128 = n / 10_000_000;
        let rest: u128 = n % 10_000_000;
        let c: u128 = if rest > 5_000_000 || (rest == 5_000_000 && rounds_up(whole)) {
            whole + 1
        } else {
            whole
        };
        let mut text = number_text(c / 100);
        text.append(".");
        if c % 100 < 10 {
            text.append("0");
        }
        text.append(number_text(c % 100).as_str());
        let mut r = String::new();
        if self.nanos < 0 {
            r.append("-");
        }
        r.append(text.as_str());
        proof {
            let t = decimal(c as int / 100) + "."@ + two_digits(c as int % 100);
            assert(text@ =~= t);
            assert(r@ =~= self.dollars());
        }
        r
    }
}

/// The decimals of a fraction, as far as they are not all zero; `unit` is what
/// the first one counts.
pub open spec fn fraction(rest: int, unit: int) -> Seq<char>
    decreases unit,
{
    if rest <= 0 || unit <= 0 {
        Seq::empty()
    } else {
        seq![digit_char(rest / unit)] + fraction(rest % unit, unit / 10)
    }
}

/// What a decimal place counts, in billionths.
spec fn is_unit(unit: int) -> bool {
    ||| unit == 100_000_000
    ||| unit == 10_000_000
    ||| unit == 1_000_000
    ||| unit == 100_000
    ||| unit == 10_000
    ||| unit == 1_000
    ||| unit == 100
    ||| unit == 10
    ||| unit == 1
}

impl Usd {
    /// The amount in dollars, with as many decimals as it takes.
    pub open spec fn plain(self) -> Seq<char> {
        let whole = decimal(self.size() / 1_000_000_000);
        let rest = self.size() % 1_000_000_000;
        let text = if rest == 0 {
            whole
        } else {
            whole + "."@ + fraction(rest, 100_000_000)
        };
        if self.nanos < 0 {
            "-"@ + text
        } else {
            text
        }
    }

    pub fn to_plain(self) -> (r: String)
        ensures
            r@ == self.plain(),
    {
        let n: u128 = self.magnitude();
        let mut r = String::new();
        if self.nanos < 0 {
            r.append("-");
        }
        r.append(number_text(n / 1_000_000_000).as_str());
        let mut rest: u128 = n % 1_000_000_000;
        if rest > 0 {
            r.append(".");
        }
        let mut unit: u128 = 100_000_000;
        let ghost head = r@;
        let ghost whole = fraction(rest as int, unit as int);
        assert(head + whole =~= head + whole);
        while rest > 0 && unit > 0
            invariant
                rest == 0 || rest < unit * 10,
                is_unit(unit as int) || unit == 0,
                r@ + fraction(rest as int, unit as int) == head + whole,
            decreases unit,
        {
            let ghost before = r@;
            let d: u128 = rest / unit;
            assert(d < 10) by (nonlinear_arith)
                requires
                    d == rest / unit,
                    rest < unit * 10,
                    unit > 0,
            ;
            assert(rest % unit < unit);
            assert(unit == 1 || unit == (unit / 10) * 10);
            r.append(number_text(d).as_str());
            proof {
                assert(decimal(d as int) == seq![digit_char(d as int)]);
                assert(r@ + fraction((rest % unit) as int, (unit / 10) as int) =~= before + (seq![
                    digit_char(d as int),
                ] + fraction((rest % unit) as int, (unit / 10) as int)));
                assert(fraction(rest as int, unit as int) == seq![digit_char(d as int)] + fraction(
                    rest as int % unit as int,
                    unit as int / 10,
                ));
            }
            rest = rest % unit;
            unit = unit / 10;
        }
        r
    }
}

/// The number that the first `k` digits stand for; digits that are missing
/// count as zero.
pub open spec fn leading(d: Seq<char>, k: int) -> int
    decreases k,
{
    if k <= 0 {
        0
    } else {
        leading(d, k - 1) * 10 + if k <= d.len() {
            d[k - 1] as int - '0' as int
        } else {
            0
        }
    }
}

/// An exponent of up to four digits, with or without a sign.
pub open spec fn exponent(s: Seq<char>) -> Option<int> {
    let d = if begins(s, "+"@) || begins(s, "-"@) {
        s.skip(1)
    } else {
        s
    };
    if 1 <= d.len() <= 4 && all_digits(d) {
        Some(
            if begins(s, "-"@) {
                -digits_number(d)
            } else {
                digits_number(d)
            },
        )
    } else {
        None
    }
}

/// The digits of a decimal number, and how many of them count whole
/// billionths.
pub open spec fn scaled(body: Seq<char>) -> Option<(Seq<char>, int)> {
    let e = find_first(body, |c: char| c == 'e' || c == 'E');
    let mantissa = body.take(e);
    let dot = find_first(mantissa, |c: char| c == '.');
    let whole = mantissa.take(dot);
    let rest = mantissa.skip(dot + 1);
    let power = if e < body.len() {
        exponent(body.skip(e + 1))
    } else {
        Some(0)
    };
    let fine = if dot < mantissa.len() {
        rest.len() > 0 && all_digits(rest)
    } else {
        true
    };
    if whole.len() > 0 && all_digits(whole) && fine && power is Some {
        Some(
            (
                if dot < mantissa.len() {
                    whole + rest
                } else {
                    whole
                },
                whole.len() + power->0 + 9,
            ),
        )
    } else {
        None
    }
}

/// The amount that a decimal number of dollars stands for, in billionths: what
/// is below a billionth is dropped, and what has no room counts as the most
/// there is room for.
pub open spec fn nanos_in(s: Seq<char>) -> Option<int> {
    let body = if begins(s, "-"@) {
        s.skip(1)
    } else {
        s
    };
    match scaled(body) {
        Some((digits, k)) => {
            let size = if leading(digits, k) > i64::MAX {
                i64::MAX as int
            } else {
                leading(digits, k)
            };
            Some(
                if begins(s, "-"@) {
                    -size
                } else {
                    size
                },
            )
        },
        None => None,
    }
}

proof fn leading_grows(d: Seq<char>, i: int, k: int)
    requires
        all_digits(d),
        i <= k,
    ensures
        0 <= leading(d, i) <= leading(d, k),
    decreases k - i, (if i > 0 { i } else { 0 }),
{
    if i > 0 {
        leading_grows(d, i - 1, i - 1);
        if i <= d.len() {
            assert(crate::text::is_digit(d[i - 1]));
        }
    }
    if i < k {
        leading_grows(d, i, k - 1);
        if 0 < k <= d.len() {
            assert(crate::text::is_digit(d[k - 1]));
        }
    }
}

proof fn leading_of_zeros(d: Seq<char>, i: int, k: int)
    requires
        d.len() <= i <= k,
        leading(d, i) == 0,
    ensures
        leading(d, k) == 0,
    decreases k - i,
{
    if i < k {
        leading_of_zeros(d, i, k - 1);
    }
}

/// The number of the first `k` digits, or the most there is room for.
fn read_leading(d: &Vec<char>, k: i128) -> (n: i64)
    requires
        all_digits(d@),
    ensures
        n == if leading(d@, k as int) > i64::MAX {
            i64::MAX as int
        } else {
            leading(d@, k as int)
        },
{
    let mut n: i64 = 0;
    let mut i: i128 = 0;
    while i < k
        invariant
            all_digits(d@),
            0 <= i,
            i <= k || (k < 0 && i == 0),
            n == leading(d@, i as int),
            0 <= n,
        decreases k - i,
    {
        if i >= d.len() as i128 && n == 0 {
            proof {
                leading_of_zeros(d@, i as int, k as int);
            }
            return 0;
        }
        let digit: i64 = if i < d.len() as i128 {
            assert(crate::text::is_digit(d@[i as int]));
            (d[i as usize] as u32 - '0' as u32) as i64
        } else {
            0
        };
        proof {
            assert(leading(d@, i + 1) == n * 10 + digit);
            leading_grows(d@, i + 1, k as int);
        }
        if n > (i64::MAX - digit) / 10 {
            return i64::MAX;
        }
        n = n * 10 + digit;
        i += 1;
    }
    n
}

fn marks_exponent(c: char) -> (b: bool)
    ensures
        b == (c == 'e' || c == 'E'),
{
    c == 'e' || c == 'E'
}

fn marks_fraction(c: char) -> (b: bool)
    ensures
        b == (c == '.'),
{
    c == '.'
}

fn read_exponent(v: &Vec<char>, from: usize) -> (r: Option<i64>)
    requires
        from <= v@.len(),
    ensures
        match r {
            Some(n) => exponent(v@.skip(from as int)) == Some(n as int) && -10_000 < n < 10_000,
            None => exponent(v@.skip(from as int)) is None,
        },
{
    let ghost s = v@.skip(from as int);
    proof {
        reveal_strlit("+");
        reveal_strlit("-");
        if s.len() > 0 {
            assert(s.take(1) =~= seq![s[0]]);
        }
    }
    let minus = from < v.len() && v[from] == '-';
    let plus = from < v.len() && v[from] == '+';
    proof {
        assert(minus == begins(s, "-"@)) by {
            assert("-"@ =~= seq!['-']);
            if s.len() > 0 {
                assert(s.take(1)[0] == s[0]);
            }
        }
        assert(plus == begins(s, "+"@)) by {
            assert("+"@ =~= seq!['+']);
            if s.len() > 0 {
                assert(s.take(1)[0] == s[0]);
            }
        }
    }
    let start: usize = if minus || plus {
        from + 1
    } else {
        from
    };
    let ghost d = v@.subrange(start as int, v@.len() as int);
    assert(d =~= if minus || plus {
        s.skip(1)
    } else {
        s
    });
    let len: usize = v.len() - start;
    if len < 1 || len > 4 {
        return None;
    }
    match digits_in(v, start, v.len()) {
        Some(n) => {
            proof {
                four_digits(d);
            }
            if minus {
                Some(-(n as i64))
            } else {
                Some(n as i64)
            }
        },
        None => {
            proof {
                if all_digits(d) {
                    four_digits(d);
                }
            }
            None
        },
    }
}

proof fn four_digits(d: Seq<char>)
    requires
        d.len() <= 4,
        all_digits(d),
    ensures
        0 <= digits_number(d) < 10_000,
{
    reveal_with_fuel(digits_number, 5);
    assert forall|i: int| 0 <= i < d.len() implies 0 <= #[trigger] d[i] as int - '0' as int <= 9 by {
        assert(crate::text::is_digit(d[i]));
    }
    if d.len() > 0 {
        let a = d.drop_last();
        assert(d.last() == d[d.len() - 1]);
        if a.len() > 0 {
            assert(a.last() == d[a.len() - 1]);
            let b = a.drop_last();
            if b.len() > 0 {
                assert(b.last() == d[b.len() - 1]);
                let c = b.drop_last();
                if c.len() > 0 {
                    assert(c.last() == d[c.len() - 1]);
                    assert(c.drop_last().len() == 0);
                }
            }
        }
    }
}

fn are_digits(v: &Vec<char>, from: usize, to: usize) -> (b: bool)
    requires
        from <= to <= v@.len(),
    ensures
        b == all_digits(v@.subrange(from as int, to as int)),
{
    let ghost part = v@.subrange(from as int, to as int);
    let mut i: usize = from;
    while i < to
        invariant
            from <= i <= to <= v@.len(),
            part == v@.subrange(from as int, to as int),
            forall|k: int| 0 <= k < i - from ==> crate::text::is_digit(#[trigger] part[k]),
        decreases to - i,
    {
        assert(part[i - from] == v@[i as int]);
        if v[i] < '0' || v[i] > '9' {
            assert(!crate::text::is_digit(part[i - from]));
            return false;
        }
        i += 1;
    }
    true
}

fn read_scaled(v: &Vec<char>) -> (r: Option<(Vec<char>, i128)>)
    ensures
        match r {
            Some((d, k)) => scaled(v@) == Some((d@, k as int)) && all_digits(d@),
            None => scaled(v@) is None,
        },
{
    let ghost mark = |c: char| c == 'e' || c == 'E';
    let ghost point = |c: char| c == '.';
    let e = find_char(v, 0, v.len(), marks_exponent, Ghost(mark));
    let dot = find_char(v, 0, e, marks_fraction, Ghost(point));
    let ghost mantissa = v@.take(e as int);
    proof {
        assert(v@.subrange(0, v@.len() as int) =~= v@);
        assert(v@.subrange(0, e as int) =~= mantissa);
        assert(v@.subrange(0, dot as int) =~= mantissa.take(dot as int));
    }
    let power: i64 = if e < v.len() {
        match read_exponent(v, e + 1) {
            Some(n) => n,
            None => {
                return None;
            },
        }
    } else {
        0
    };
    if dot == 0 || !are_digits(v, 0, dot) {
        return None;
    }
    let ghost whole = mantissa.take(dot as int);
    let mut d: Vec<char> = Vec::new();
    let mut i: usize = 0;
    while i < dot
        invariant
            i <= dot <= v@.len(),
            d@ == v@.take(i as int),
        decreases dot - i,
    {
        d.push(v[i]);
        assert(d@ =~= v@.take(i + 1));
        i += 1;
    }
    assert(d@ =~= whole);
    if dot < e {
        let ghost rest = mantissa.skip(dot + 1);
        assert(v@.subrange(dot + 1, e as int) =~= rest);
        if dot + 1 == e || !are_digits(v, dot + 1, e) {
            return None;
        }
        let mut j: usize = dot + 1;
        while j < e
            invariant
                dot + 1 <= j <= e <= v@.len(),
                d@ == whole + v@.subrange(dot + 1, j as int),
            decreases e - j,
        {
            d.push(v[j]);
            assert(d@ =~= whole + v@.subrange(dot + 1, j + 1));
            j += 1;
        }
        proof {
            assert(d@ =~= whole + rest);
            assert forall|k: int| 0 <= k < d@.len() implies crate::text::is_digit(#[trigger] d@[k]) by {
                if k < whole.len() {
                    assert(crate::text::is_digit(whole[k]));
                } else {
                    assert(crate::text::is_digit(rest[k - whole.len()]));
                }
            }
        }
    }
    Some((d, dot as i128 + power as i128 + 9))
}

impl Usd {
    /// Reads a decimal number of dollars, as JSON writes numbers.
    pub fn read(s: &str) -> (r: Option<Usd>)
        ensures
            match r {
                Some(u) => nanos_in(s@) == Some(u.nanos as int),
                None => nanos_in(s@) is None,
            },
    {
        proof {
            reveal_strlit("-");
        }
        let minus = starts_with(s, "-");
        let v = match drop_prefix(s, "-") {
            Some(rest) => chars_of(rest.as_str()),
            None => chars_of(s),
        };
        match read_scaled(&v) {
            Some((d, k)) => {
                let n = read_leading(&d, k);
                proof {
                    leading_grows(d@, 0, if k > 0 { k as int } else { 0 });
                }
                Some(
                    Usd {
                        nanos: if minus {
                            -n
                        } else {
                            n
                        },
                    },
                )
            },
            None => None,
        }
    }
}

spec fn tens(m: nat) -> int
    decreases m,
{
    if m == 0 {
        1
    } else {
        10 * tens((m - 1) as nat)
    }
}

proof fn tens_are_positive(m: nat)
    ensures
        tens(m) > 0,
    decreases m,
{
    if m > 0 {
        tens_are_positive((m - 1) as nat);
    }
}

/// The number of digits that are all there.
proof fn leading_is_number(d: Seq<char>, k: int)
    requires
        0 <= k <= d.len(),
    ensures
        leading(d, k) == digits_number(d.take(k)),
    decreases k,
{
    if k > 0 {
        leading_is_number(d, k - 1);
        assert(d.take(k).drop_last() =~= d.take(k - 1));
    }
}

/// Digits that are not there count as zeros.
proof fn leading_of_missing(d: Seq<char>, m: nat)
    ensures
        leading(d, (d.len() + m) as int) == leading(d, d.len() as int) * tens(m),
    decreases m,
{
    if m > 0 {
        leading_of_missing(d, (m - 1) as nat);
        let v = leading(d, d.len() as int);
        let t = tens((m - 1) as nat);
        assert(v * t * 10 == v * (10 * t)) by (nonlinear_arith);
    } else {
        assert(tens(0) == 1);
    }
}

/// The digits of a fraction bring it back.
proof fn fractions_read_back(pre: Seq<char>, rest: int, unit: int, m: nat)
    requires
        0 <= rest < tens(m),
        unit == if m == 0 {
            0
        } else {
            tens((m - 1) as nat)
        },
    ensures
        leading(pre + fraction(rest, unit), (pre.len() + m) as int) == leading(
            pre,
            pre.len() as int,
        ) * tens(m)
            + rest,
        all_digits(fraction(rest, unit)),
        rest > 0 ==> fraction(rest, unit).len() > 0,
    decreases m,
{
    let v = leading(pre, pre.len() as int);
    if rest <= 0 || m == 0 {
        assert(pre + fraction(rest, unit) =~= pre);
        leading_of_missing(pre, m);
    } else {
        let n = (m - 1) as nat;
        tens_are_positive(n);
        let q = rest / unit;
        let r = rest % unit;
        vstd::arithmetic::div_mod::lemma_fundamental_div_mod(rest, unit);
        assert(0 <= q < 10 && 0 <= r < unit) by (nonlinear_arith)
            requires
                unit > 0,
                rest == unit * q + r,
                r == rest % unit,
                0 <= rest < 10 * unit,
        ;
        let c = digit_char(q);
        assert(c as int - '0' as int == q);
        let next = pre.push(c);
        let tail = fraction(r, unit / 10);
        if n > 0 {
            assert(unit / 10 == tens((n - 1) as nat));
        } else {
            assert(unit == 1);
        }
        fractions_read_back(next, r, unit / 10, n);
        assert(next.len() == pre.len() + 1);
        assert(leading(next, pre.len() as int) == v) by {
            leading_is_number(next, pre.len() as int);
            leading_is_number(pre, pre.len() as int);
            assert(next.take(pre.len() as int) =~= pre.take(pre.len() as int));
        }
        assert(leading(next, next.len() as int) == v * 10 + q);
        assert(pre + fraction(rest, unit) =~= next + tail);
        assert((v * 10 + q) * unit + r == v * (10 * unit) + rest) by (nonlinear_arith)
            requires
                rest == unit * q + r,
        ;
        let all = fraction(rest, unit);
        assert(all =~= seq![c] + tail);
        assert forall|i: int| 0 <= i < all.len() implies crate::text::is_digit(#[trigger] all[i]) by {
            if i > 0 {
                assert(all[i] == tail[i - 1]);
                assert(crate::text::is_digit(tail[i - 1]));
            }
        }
    }
}

#[verifier::rlimit(60)]
proof fn plain_digits_are_read(w: int, rest: int)
    requires
        0 <= w,
        0 <= rest < 1_000_000_000,
    ensures
        ({
            let body = if rest == 0 {
                decimal(w)
            } else {
                decimal(w) + "."@ + fraction(rest, 100_000_000)
            };
            &&& !begins(body, "-"@)
            &&& scaled(body) matches Some((digits, k)) && leading(digits, k) == w * 1_000_000_000
                + rest
        }),
{
    let whole = decimal(w);
    decimals_read_back(w);
    reveal_strlit("-");
    reveal_strlit(".");
    let pe = |c: char| c == 'e' || c == 'E';
    let pd = |c: char| c == '.';
    assert(forall|i: int| 0 <= i < whole.len() ==> crate::text::is_digit(#[trigger] whole[i]));
    assert(tens(9) == 1_000_000_000 && tens(8) == 100_000_000) by {
        reveal_with_fuel(tens, 10);
    }
    leading_is_number(whole, whole.len() as int);
    assert(whole.take(whole.len() as int) =~= whole);
    fractions_read_back(whole, rest, 100_000_000, 9);
    if rest == 0 {
        let body = whole;
        assert(body.take(1)[0] == body[0]);
        nothing_is_found(body, pe);
        assert(body.take(body.len() as int) =~= body);
        nothing_is_found(body, pd);
        assert(whole + fraction(rest, 100_000_000) =~= whole);
    } else {
        let f = fraction(rest, 100_000_000);
        let body = whole + "."@ + f;
        assert(forall|i: int| 0 <= i < f.len() ==> crate::text::is_digit(#[trigger] f[i]));
        assert(body[0] == whole[0]);
        assert(body.take(1)[0] == body[0]);
        assert forall|i: int| 0 <= i < body.len() implies !pe(#[trigger] body[i]) by {
            if i > whole.len() {
                assert(body[i] == f[i - whole.len() - 1]);
            } else if i < whole.len() {
                assert(body[i] == whole[i]);
            }
        }
        nothing_is_found(body, pe);
        assert(body.take(body.len() as int) =~= body);
        assert("."@ =~= seq!['.']);
        first_is_found(whole, '.', f, pd);
        let dot = whole.len() as int;
        assert(find_first(body, pd) == dot);
        assert(body.take(dot) =~= whole);
        assert(body.skip(dot + 1) =~= f);
    }
}

/// An amount that is written out in full is read back as it was. The lowest amount there
/// is has no counterpart above zero and is left out.
pub proof fn plain_amounts_read_back(amount: Usd)
    requires
        amount.nanos > i64::MIN,
    ensures
        nanos_in(amount.plain()) == Some(amount.nanos as int),
{
    let w = amount.size() / 1_000_000_000;
    let rest = amount.size() % 1_000_000_000;
    plain_digits_are_read(w, rest);
    let body = if rest == 0 {
        decimal(w)
    } else {
        decimal(w) + "."@ + fraction(rest, 100_000_000)
    };
    reveal_strlit("-");
    if amount.nanos < 0 {
        let s = "-"@ + body;
        assert(s.take(1) =~= "-"@);
        assert(s.skip(1) =~= body);
    }
}

/// Dollars are written to the nearest cent: with two digits behind the point, as the
/// number of cents that is no further than half a cent away, and with a sign below zero
/// only. The more an amount is, the more cents it has.
#[verifier::rlimit(60)]
pub proof fn dollars_are_the_nearest_cents(amount: Usd, more: Usd)
    ensures
        ({
            let all = amount.dollars();
            let text = if amount.nanos < 0 {
                all.skip(1)
            } else {
                all
            };
            let n = text.len();
            let whole = digits_number(text.take(n - 3) + text.skip(n - 2));
            &&& (all[0] == '-') == (amount.nanos < 0)
            &&& n >= 4
            &&& text[n - 3] == '.'
            &&& all_digits(text.take(n - 3) + text.skip(n - 2))
            &&& -5_000_000 <= whole * 10_000_000 - amount.size() <= 5_000_000
            &&& whole == cents(amount.size())
        }),
        amount.size() <= more.size() ==> cents(amount.size()) <= cents(more.size()),
{
    let c = cents(amount.size());
    let a = decimal(c / 100);
    let b = two_digits(c % 100);
    let text = a + "."@ + b;
    decimals_read_back(c / 100);
    decimals_read_back(c % 100);
    reveal_strlit("-");
    reveal_strlit(".");
    reveal_strlit("0");
    assert(crate::text::is_digit(a[0]));
    assert(b.len() == 2 && all_digits(b) && digits_number(b) == c % 100) by {
        let d = decimal(c % 100);
        if c % 100 < 10 {
            assert(d =~= seq![digit_char(c % 100)]);
            assert(b =~= seq!['0', d[0]]);
            assert(crate::text::is_digit(d[0]));
            assert(b.drop_last() =~= seq!['0']);
            assert(b.drop_last().drop_last() =~= Seq::<char>::empty());
            reveal_with_fuel(digits_number, 3);
        } else {
            let t = c % 100 / 10;
            assert(decimal(t) =~= seq![digit_char(t)]);
            assert(d =~= decimal(t).push(digit_char(c % 100 % 10)));
        }
    }
    let n = text.len();
    let both = text.take(n - 3) + text.skip(n - 2);
    assert(text.take(n - 3) =~= a);
    assert(text.skip(n - 2) =~= b);
    assert(all_digits(both)) by {
        assert forall|i: int| 0 <= i < both.len() implies crate::text::is_digit(#[trigger] both[i]) by {
            if i < a.len() {
                assert(crate::text::is_digit(a[i]));
            } else {
                assert(crate::text::is_digit(b[i - a.len()]));
            }
        }
    }
    assert(digits_number(both) == c) by {
        assert(both.drop_last() =~= a.push(b[0]));
        assert(both.drop_last().drop_last() =~= a);
        assert(b.drop_last() =~= seq![b[0]]);
        assert(b.drop_last().drop_last() =~= Seq::<char>::empty());
        reveal_with_fuel(digits_number, 3);
    }
    if amount.nanos < 0 {
        assert(("-"@ + text).skip(1) =~= text);
    }
}

} // verus!
