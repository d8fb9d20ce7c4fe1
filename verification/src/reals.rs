//! Texts that denote finite real numbers.

use vstd::prelude::*;
use crate::text;
use crate::text::chars_of;

verus! {

/// The value of a decimal digit; of any other character zero.
pub open spec fn digit_of(c: char) -> nat {
    match text::digit_value(c) {
        Some(d) => d,
        None => 0,
    }
}

/// The number that digits denote; no digits denote zero.
pub open spec fn whole_value(s: Seq<char>) -> nat
    decreases s.len(),
{
    if s.len() == 0 {
        0
    } else {
        whole_value(s.drop_last()) * 10 + digit_of(s.last())
    }
}

/// A power of ten.
pub open spec fn power_of_ten(n: nat) -> nat
    decreases n,
{
    if n == 0 {
        1
    } else {
        10 * power_of_ten((n - 1) as nat)
    }
}

/// A text without its sign.
pub open spec fn unsigned(s: Seq<char>) -> Seq<char> {
    if s.len() > 0 && (s[0] == '+' || s[0] == '-') {
        s.skip(1)
    } else {
        s
    }
}

/// Where the digits end that begin at a place.
pub open spec fn digits_end(s: Seq<char>, from: int) -> int
    decreases s.len() - from,
{
    if 0 <= from < s.len() && text::digit_value(s[from]) is Some {
        digits_end(s, from + 1)
    } else {
        from
    }
}

/// A decimal number: digits, and the power of ten that they are taken times.
pub struct Decimal {
    pub digits: Seq<char>,
    pub exponent: int,
}

/// The decimal number that a text without a sign denotes: digits with a point among or
/// around them, at least one digit, and `e` or `E` with an exponent behind them where
/// there is one.
pub open spec fn decimal_of(u: Seq<char>) -> Option<Decimal> {
    let i = digits_end(u, 0);
    let pointed = i < u.len() && u[i] == '.';
    let j = if pointed {
        digits_end(u, i + 1)
    } else {
        i
    };
    let fraction = if pointed {
        u.subrange(i + 1, j)
    } else {
        Seq::empty()
    };
    let digits = u.take(i) + fraction;
    if digits.len() == 0 {
        None
    } else if j == u.len() {
        Some(Decimal { digits, exponent: -(fraction.len() as int) })
    } else if u[j] == 'e' || u[j] == 'E' {
        match text::number_value(u.skip(j + 1)) {
            Some(e) => Some(Decimal { digits, exponent: e - fraction.len() }),
            None => None,
        }
    } else {
        None
    }
}

/// The least number that no finite real number of 64 bits is nearest to: it lies halfway
/// between the greatest of them and the next power of two, 2^1024 - 2^970.
pub open spec fn limit_digits() -> Seq<char> {
    "179769313486231580793728971405303415079934132710037826936173778980444968292764750946649017977587207096330286416692887910946555547851940402630657488671505820681908902000708383676273854845817711531764475730270069855571366959622842914819860834936475292719074168444365510704342711559699508093042880177904174497792"@
}

/// Whether a decimal number is below the least that is taken for infinite.
pub open spec fn below_limit(d: Decimal) -> bool {
    let n = whole_value(d.digits);
    if d.exponent >= 0 {
        n * power_of_ten(d.exponent as nat) < whole_value(limit_digits())
    } else {
        n < whole_value(limit_digits()) * power_of_ten((-d.exponent) as nat)
    }
}

/// Whether a text denotes a finite real number.
pub open spec fn finite_number(s: Seq<char>) -> bool {
    decimal_of(unsigned(s)) matches Some(d) && below_limit(d)
}

proof fn lemma_power_adds(a: nat, b: nat)
    ensures
        power_of_ten(a + b) == power_of_ten(a) * power_of_ten(b),
        power_of_ten(a) > 0,
    decreases a,
{
    if a == 0 {
        assert(1 * power_of_ten(b) == power_of_ten(b)) by (nonlinear_arith);
    } else {
        lemma_power_adds((a - 1) as nat, b);
        let p = power_of_ten((a - 1) as nat);
        let q = power_of_ten(b);
        assert(10 * (p * q) == (10 * p) * q) by (nonlinear_arith);
    }
}

proof fn lemma_power_grows(a: nat, b: nat)
    requires
        a <= b,
    ensures
        power_of_ten(a) <= power_of_ten(b),
        power_of_ten(a) > 0,
{
    lemma_power_adds(a, (b - a) as nat);
    lemma_power_adds((b - a) as nat, 0);
    let p = power_of_ten(a);
    let q = power_of_ten((b - a) as nat);
    assert(p <= p * q) by (nonlinear_arith)
        requires
            p > 0,
            q > 0,
    ;
}

proof fn lemma_value_of_both(a: Seq<char>, b: Seq<char>)
    ensures
        whole_value(a + b) == whole_value(a) * power_of_ten(b.len()) + whole_value(b),
    decreases b.len(),
{
    if b.len() == 0 {
        assert(a + b =~= a);
        assert(whole_value(a) * 1 == whole_value(a)) by (nonlinear_arith);
    } else {
        let d = b.drop_last();
        lemma_value_of_both(a, d);
        assert((a + b).drop_last() =~= a + d);
        let v = whole_value(a);
        let p = power_of_ten(d.len());
        let w = whole_value(d);
        assert((v * p + w) * 10 == v * (10 * p) + w * 10) by (nonlinear_arith);
    }
}

proof fn lemma_value_bounds(s: Seq<char>)
    ensures
        whole_value(s) < power_of_ten(s.len()),
        s.len() > 0 && digit_of(s[0]) > 0 ==> power_of_ten((s.len() - 1) as nat) <= whole_value(s),
    decreases s.len(),
{
    if s.len() > 0 {
        lemma_value_bounds(s.drop_last());
        if s.len() > 1 {
            assert(s.drop_last()[0] == s[0]);
        } else {
            assert(s.last() == s[0]);
            assert(whole_value(s.drop_last()) == 0);
        }
    }
}

proof fn lemma_less_at(a: Seq<char>, b: Seq<char>, k: int)
    requires
        a.len() == b.len(),
        0 <= k < a.len(),
        forall|i: int| 0 <= i < k ==> digit_of(#[trigger] a[i]) == digit_of(b[i]),
        digit_of(a[k]) < digit_of(b[k]),
    ensures
        whole_value(a) < whole_value(b),
    decreases a.len(),
{
    let c = a.drop_last();
    let d = b.drop_last();
    if k == a.len() - 1 {
        assert forall|i: int| 0 <= i < c.len() implies digit_of(#[trigger] c[i]) == digit_of(
            d[i],
        ) by {
            assert(digit_of(a[i]) == digit_of(b[i]));
        }
        lemma_same_value(c, d);
    } else {
        assert forall|i: int| 0 <= i < k implies digit_of(#[trigger] c[i]) == digit_of(d[i]) by {
            assert(digit_of(a[i]) == digit_of(b[i]));
        }
        lemma_less_at(c, d, k);
    }
}

proof fn lemma_same_value(a: Seq<char>, b: Seq<char>)
    requires
        a.len() == b.len(),
        forall|i: int| 0 <= i < a.len() ==> digit_of(#[trigger] a[i]) == digit_of(b[i]),
    ensures
        whole_value(a) == whole_value(b),
    decreases a.len(),
{
    if a.len() > 0 {
        let c = a.drop_last();
        let d = b.drop_last();
        assert forall|i: int| 0 <= i < c.len() implies digit_of(#[trigger] c[i]) == digit_of(
            d[i],
        ) by {
            assert(digit_of(a[i]) == digit_of(b[i]));
        }
        lemma_same_value(c, d);
        assert(digit_of(a[a.len() - 1]) == digit_of(b[a.len() - 1]));
    }
}

proof fn lemma_zeros(s: Seq<char>)
    requires
        forall|i: int| 0 <= i < s.len() ==> digit_of(#[trigger] s[i]) == 0,
    ensures
        whole_value(s) == 0,
    decreases s.len(),
{
    if s.len() > 0 {
        let d = s.drop_last();
        assert forall|i: int| 0 <= i < d.len() implies digit_of(#[trigger] d[i]) == 0 by {
            assert(digit_of(s[i]) == 0);
        }
        lemma_zeros(d);
        assert(digit_of(s[s.len() - 1]) == 0);
    }
}

proof fn lemma_limit()
    ensures
        limit_digits().len() == 309,
        power_of_ten(308) <= whole_value(limit_digits()) < power_of_ten(309),
{
    reveal_strlit(
        "179769313486231580793728971405303415079934132710037826936173778980444968292764750946649017977587207096330286416692887910946555547851940402630657488671505820681908902000708383676273854845817711531764475730270069855571366959622842914819860834936475292719074168444365510704342711559699508093042880177904174497792",
    );
    assert(limit_digits().len() == 309);
    assert(digit_of(limit_digits()[0]) == 1);
    lemma_value_bounds(limit_digits());
}

/// Digits of which the first is not zero, and of which `p` stand before the point, are
/// below the limit where these are too few, and above it where they are too many.
proof fn lemma_far_from_limit(d: Decimal, z: int)
    requires
        0 <= z < d.digits.len(),
        forall|i: int| 0 <= i < z ==> digit_of(#[trigger] d.digits[i]) == 0,
        digit_of(d.digits[z]) > 0,
    ensures
        d.digits.len() - z + d.exponent <= 308 ==> below_limit(d),
        d.digits.len() - z + d.exponent >= 310 ==> !below_limit(d),
{
    let s = d.digits.skip(z);
    let m = s.len();
    let n = whole_value(d.digits);
    let limit = whole_value(limit_digits());
    let p = m + d.exponent;
    lemma_limit();
    lemma_zeros(d.digits.take(z));
    lemma_value_of_both(d.digits.take(z), s);
    assert(d.digits.take(z) + s =~= d.digits);
    assert(0 * power_of_ten(m) == 0) by (nonlinear_arith);
    assert(n == whole_value(s));
    assert(s[0] == d.digits[z]);
    lemma_value_bounds(s);
    if d.exponent >= 0 {
        let e = d.exponent as nat;
        let t = power_of_ten(e);
        lemma_power_adds(m, e);
        lemma_power_adds((m - 1) as nat, e);
        lemma_power_adds(e, 0);
        if p <= 308 {
            lemma_power_grows((m + e) as nat, 308);
            let w = power_of_ten(m);
            assert(n * t < w * t) by (nonlinear_arith)
                requires
                    n < w,
                    t > 0,
            ;
        }
        if p >= 310 {
            lemma_power_grows(309, (m - 1 + e) as nat);
            let w = power_of_ten((m - 1) as nat);
            assert(w * t <= n * t) by (nonlinear_arith)
                requires
                    w <= n,
                    t > 0,
            ;
        }
    } else {
        let e = (-d.exponent) as nat;
        let t = power_of_ten(e);
        lemma_power_adds(e, 0);
        lemma_power_adds(308, e);
        lemma_power_adds(309, e);
        if p <= 308 {
            lemma_power_grows(m, 308 + e);
            let w = power_of_ten(308);
            assert(w * t <= limit * t) by (nonlinear_arith)
                requires
                    w <= limit,
                    t > 0,
            ;
        }
        if p >= 310 {
            lemma_power_grows(309 + e, (m - 1) as nat);
            let w = power_of_ten(309);
            assert(limit * t <= w * t) by (nonlinear_arith)
                requires
                    limit <= w,
                    t > 0,
            ;
        }
    }
}

/// The digits from a place on, as many as the limit has, and zeros where there are no
/// more.
pub open spec fn leading(digits: Seq<char>, z: int) -> Seq<char> {
    Seq::new(
        309,
        |i: int|
            if z + i < digits.len() {
                digits[z + i]
            } else {
                '0'
            },
    )
}

proof fn lemma_near_limit(d: Decimal, z: int)
    requires
        0 <= z < d.digits.len(),
        forall|i: int| 0 <= i < z ==> digit_of(#[trigger] d.digits[i]) == 0,
        d.digits.len() - z + d.exponent == 309,
    ensures
        below_limit(d) == (whole_value(leading(d.digits, z)) < whole_value(limit_digits())),
{
    let s = d.digits.skip(z);
    let m = s.len();
    let n = whole_value(d.digits);
    let limit = whole_value(limit_digits());
    let lead = leading(d.digits, z);
    lemma_zeros(d.digits.take(z));
    lemma_value_of_both(d.digits.take(z), s);
    assert(d.digits.take(z) + s =~= d.digits);
    assert(0 * power_of_ten(m) == 0) by (nonlinear_arith);
    assert(n == whole_value(s));
    if m <= 309 {
        let zeros = Seq::new((309 - m) as nat, |i: int| '0');
        assert(lead =~= s + zeros);
        lemma_zeros(zeros);
        lemma_value_of_both(s, zeros);
    } else {
        let rest = s.skip(309);
        assert(s =~= lead + rest);
        lemma_value_of_both(lead, rest);
        lemma_value_bounds(rest);
        let t = power_of_ten(rest.len());
        let v = whole_value(lead);
        assert(rest.len() == -d.exponent);
        if v < limit {
            assert((v + 1) * t == v * t + t) by (nonlinear_arith);
            assert((v + 1) * t <= limit * t) by (nonlinear_arith)
                requires
                    v + 1 <= limit,
                    t > 0,
            ;
        } else {
            assert(limit * t <= v * t) by (nonlinear_arith)
                requires
                    limit <= v,
                    t >= 0,
            ;
        }
    }
}

fn read_digit(c: char) -> (r: u8)
    ensures
        r == digit_of(c),
{
    if '0' <= c && c <= '9' {
        let b: u8 = c as u8;
        b - 48
    } else {
        0
    }
}

fn is_digit(c: char) -> (r: bool)
    ensures
        r == (text::digit_value(c) is Some),
{
    '0' <= c && c <= '9'
}

/// Whether digits, as many as the limit has, are below it.
#[verifier::loop_isolation(false)]
fn leads_below(digits: &Vec<char>, z: usize) -> (r: bool)
    requires
        z < digits@.len(),
    ensures
        r == (whole_value(leading(digits@, z as int)) < whole_value(limit_digits())),
{
    let limit = chars_of(
        "179769313486231580793728971405303415079934132710037826936173778980444968292764750946649017977587207096330286416692887910946555547851940402630657488671505820681908902000708383676273854845817711531764475730270069855571366959622842914819860834936475292719074168444365510704342711559699508093042880177904174497792",
    );
    let ghost lead = leading(digits@, z as int);
    let ghost top = limit_digits();
    proof {
        lemma_limit();
    }
    let mut k: usize = 0;
    while k < 309
        invariant
            k <= 309,
            limit@ == top,
            top.len() == 309,
            lead == leading(digits@, z as int),
            forall|i: int| 0 <= i < k ==> digit_of(#[trigger] lead[i]) == digit_of(top[i]),
        decreases 309 - k,
    {
        let have: u8 = if k < digits.len() - z {
            read_digit(digits[z + k])
        } else {
            0
        };
        let want: u8 = read_digit(limit[k]);
        assert(have == digit_of(lead[k as int]));
        if have < want {
            proof {
                lemma_less_at(lead, top, k as int);
            }
            return true;
        }
        if have > want {
            proof {
                assert forall|i: int| 0 <= i < k implies digit_of(#[trigger] top[i]) == digit_of(
                    lead[i],
                ) by {
                    assert(digit_of(lead[i]) == digit_of(top[i]));
                }
                lemma_less_at(top, lead, k as int);
            }
            return false;
        }
        k += 1;
    }
    proof {
        lemma_same_value(lead, top);
    }
    false
}

/// An exponent that is beyond all others.
pub const FAR: i128 = 1_000_000_000_000_000_000_000_000_000_000;

/// Whether a number is the given one, or is as far beyond all others.
pub open spec fn about(e: i128, n: int) -> bool {
    e == n || (e == FAR && n >= FAR) || (e == -FAR && n <= -FAR)
}

/// The exponent that begins at a place, as far as it matters.
#[verifier::loop_isolation(false)]
fn read_exponent(v: &Vec<char>, from: usize) -> (r: Option<i128>)
    requires
        from <= v@.len(),
    ensures
        match r {
            Some(e) => text::number_value(v@.skip(from as int)) matches Some(n) && about(e, n)
                && -FAR <= e <= FAR,
            None => text::number_value(v@.skip(from as int)) is None,
        },
{
    let n: usize = v.len();
    let negative = from < n && v[from] == '-';
    let signed = from < n && (v[from] == '-' || v[from] == '+');
    let start: usize = if signed {
        from + 1
    } else {
        from
    };
    let ghost rest = v@.skip(from as int);
    let ghost body = v@.skip(start as int);
    assert(from < n ==> rest[0] == v@[from as int]);
    assert(signed ==> rest.skip(1) =~= body);
    if start == n {
        return None;
    }
    let mut acc: i128 = 0;
    let mut i: usize = start;
    while i < n
        invariant
            start <= i <= n,
            n == v@.len(),
            body == v@.skip(start as int),
            0 <= acc <= FAR,
            i == start ==> acc == 0,
            i > start ==> (text::digits_value(body.take(i - start)) matches Some(x) && about(
                acc,
                x as int,
            )),
        decreases n - i,
    {
        let c = v[i];
        assert(body.take(i - start + 1).last() == c);
        assert(body.take(i - start + 1).drop_last() =~= body.take(i - start));
        if !is_digit(c) {
            proof {
                if text::digits_value(body) is Some {
                    text::lemma_digits_grow(body, i - start + 1);
                }
            }
            return None;
        }
        let d: u8 = read_digit(c);
        let next: i128 = acc * 10 + d as i128;
        acc = if next > FAR {
            FAR
        } else {
            next
        };
        i += 1;
    }
    assert(body.take(i - start) =~= body);
    if negative {
        Some(-acc)
    } else {
        Some(acc)
    }
}

#[verifier::loop_isolation(false)]
fn find_digits_end(v: &Vec<char>, base: usize, from: usize) -> (r: usize)
    requires
        base <= from <= v@.len(),
    ensures
        from <= r <= v@.len(),
        r - base == digits_end(v@.skip(base as int), from - base),
{
    let ghost u = v@.skip(base as int);
    let mut i: usize = from;
    while i < v.len() && is_digit(v[i])
        invariant
            from <= i <= v@.len(),
            u == v@.skip(base as int),
            digits_end(u, i - base) == digits_end(u, from - base),
        decreases v@.len() - i,
    {
        assert(u[i - base] == v@[i as int]);
        i += 1;
    }
    assert(i < v@.len() ==> u[i - base] == v@[i as int]);
    i
}

/// The digits before and behind the point.
#[verifier::loop_isolation(false)]
fn collect_digits(v: &Vec<char>, base: usize, i: usize, j: usize) -> (r: Vec<char>)
    requires
        base <= i <= j <= v@.len(),
    ensures
        ({
            let u = v@.skip(base as int);
            r@ == u.take(i - base) + (if i < j {
                u.subrange(i - base + 1, j - base)
            } else {
                Seq::empty()
            })
        }),
{
    let ghost u = v@.skip(base as int);
    let mut digits: Vec<char> = Vec::new();
    let mut k: usize = base;
    while k < i
        invariant
            base <= k <= i,
            i <= v@.len(),
            u == v@.skip(base as int),
            digits@ == u.take(k - base),
        decreases i - k,
    {
        assert(u[k - base] == v@[k as int]);
        digits.push(v[k]);
        k += 1;
        assert(digits@ =~= u.take(k - base));
    }
    if i < j {
        let mut m: usize = i + 1;
        assert(digits@ =~= u.take(i - base) + u.subrange(i - base + 1, m - base));
        while m < j
            invariant
                i < m <= j,
                j <= v@.len(),
                u == v@.skip(base as int),
                digits@ == u.take(i - base) + u.subrange(i - base + 1, m - base),
            decreases j - m,
        {
            assert(u[m - base] == v@[m as int]);
            digits.push(v[m]);
            m += 1;
            assert(digits@ =~= u.take(i - base) + u.subrange(i - base + 1, m - base));
        }
    }
    assert(i == j ==> digits@ =~= u.take(i - base) + Seq::<char>::empty());
    digits
}

/// A decimal number as far as it was read.
pub struct ReadDecimal {
    pub digits: Vec<char>,
    pub exponent: i128,
}

/// An exponent that leaves no doubt about a number.
pub const CLEAR: i128 = 500_000_000_000_000_000_000_000_000_000;

/// Whether what was read tells a decimal number: its exponent is the same, or as clear.
pub open spec fn tells(r: ReadDecimal, d: Decimal) -> bool {
    &&& r.digits@ == d.digits
    &&& -2 * FAR <= r.exponent <= 2 * FAR
    &&& r.exponent == d.exponent || (r.exponent >= CLEAR && d.exponent >= CLEAR) || (r.exponent
        <= -CLEAR && d.exponent <= -CLEAR)
}

fn read_decimal(v: &Vec<char>, base: usize) -> (r: Option<ReadDecimal>)
    requires
        base <= v@.len(),
    ensures
        match r {
            Some(x) => decimal_of(v@.skip(base as int)) matches Some(d) && tells(x, d),
            None => decimal_of(v@.skip(base as int)) is None,
        },
{
    let n: usize = v.len();
    let ghost u = v@.skip(base as int);
    let i: usize = find_digits_end(v, base, base);
    let pointed = i < n && v[i] == '.';
    assert(i < n ==> u[i - base] == v@[i as int]);
    let j: usize = if pointed {
        find_digits_end(v, base, i + 1)
    } else {
        i
    };
    let digits = collect_digits(v, base, i, j);
    let after: usize = if pointed {
        j - i - 1
    } else {
        0
    };
    if digits.len() == 0 {
        return None;
    }
    if j == n {
        return Some(ReadDecimal { digits, exponent: -(after as i128) });
    }
    assert(u[j - base] == v@[j as int]);
    if !(v[j] == 'e' || v[j] == 'E') {
        return None;
    }
    assert(v@.skip(j + 1) =~= u.skip(j - base + 1));
    match read_exponent(v, j + 1) {
        Some(e) => Some(ReadDecimal { digits, exponent: e - after as i128 }),
        None => None,
    }
}

#[verifier::loop_isolation(false)]
fn find_nonzero(digits: &Vec<char>) -> (z: usize)
    ensures
        z <= digits@.len(),
        forall|q: int| 0 <= q < z ==> digit_of(#[trigger] digits@[q]) == 0,
        z < digits@.len() ==> digit_of(digits@[z as int]) > 0,
{
    let mut z: usize = 0;
    while z < digits.len() && read_digit(digits[z]) == 0
        invariant
            z <= digits@.len(),
            forall|q: int| 0 <= q < z ==> digit_of(#[trigger] digits@[q]) == 0,
        decreases digits@.len() - z,
    {
        z += 1;
    }
    z
}

proof fn lemma_zero_below(d: Decimal)
    requires
        forall|i: int| 0 <= i < d.digits.len() ==> digit_of(#[trigger] d.digits[i]) == 0,
    ensures
        below_limit(d),
{
    lemma_zeros(d.digits);
    lemma_limit();
    lemma_power_adds(308, 0);
    if d.exponent >= 0 {
        assert(0 * power_of_ten(d.exponent as nat) == 0) by (nonlinear_arith);
    } else {
        let t = power_of_ten((-d.exponent) as nat);
        lemma_power_adds((-d.exponent) as nat, 0);
        let w = whole_value(limit_digits());
        assert(0 < w * t) by (nonlinear_arith)
            requires
                w > 0,
                t > 0,
        ;
    }
}

fn is_below_limit(r: &ReadDecimal, d: Ghost<Decimal>) -> (b: bool)
    requires
        tells(*r, d@),
    ensures
        b == below_limit(d@),
{
    let z: usize = find_nonzero(&r.digits);
    if z == r.digits.len() {
        proof {
            lemma_zero_below(d@);
        }
        return true;
    }
    let before: i128 = (r.digits.len() - z) as i128 + r.exponent;
    proof {
        lemma_far_from_limit(d@, z as int);
    }
    if before <= 308 {
        return true;
    }
    if before >= 310 {
        return false;
    }
    proof {
        lemma_near_limit(d@, z as int);
    }
    leads_below(&r.digits, z)
}

/// Whether a text denotes a finite real number.
pub fn denotes_finite(s: &str) -> (r: bool)
    ensures
        r == finite_number(s@),
{
    let v = chars_of(s);
    let base: usize = if v.len() > 0 && (v[0] == '+' || v[0] == '-') {
        1
    } else {
        0
    };
    assert(v@.skip(0) =~= v@);
    assert(v@.skip(base as int) == unsigned(s@));
    match read_decimal(&v, base) {
        Some(x) => is_below_limit(&x, Ghost(decimal_of(unsigned(s@))->0)),
        None => false,
    }
}

} // verus!
