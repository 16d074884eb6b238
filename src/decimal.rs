//! Decimal number literals, read exactly, and the density of two of them.
use vstd::prelude::*;
use vstd::arithmetic::div_mod::{lemma_fundamental_div_mod, lemma_fundamental_div_mod_converse};
use crate::rounding::{rounded_text, write_rounded};

verus! {

/// The most digits a literal may have for its value to be read.
pub const MAX_DIGITS: usize = 37;

/// A decimal value: `mantissa / 10^scale`, negated when `negative`.
#[derive(Debug, Clone, Copy, PartialEq, Eq)]
pub struct Decimal {
    pub negative: bool,
    pub mantissa: u128,
    pub scale: u32,
}

pub open spec fn is_digit(c: char) -> bool {
    '0' <= c && c <= '9'
}

pub open spec fn all_digits(s: Seq<char>) -> bool {
    forall|i: int| 0 <= i < s.len() ==> is_digit(#[trigger] s[i])
}

pub open spec fn digit_value(c: char) -> nat {
    (c as int - '0' as int) as nat
}

/// The number that a string of decimal digits denotes.
pub open spec fn digits_value(s: Seq<char>) -> nat
    decreases s.len(),
{
    if s.len() == 0 {
        0
    } else {
        digits_value(s.drop_last()) * 10 + digit_value(s.last())
    }
}

pub open spec fn pow10(n: nat) -> nat
    decreases n,
{
    if n == 0 {
        1
    } else {
        10 * pow10((n - 1) as nat)
    }
}

/// The digits of a literal after its optional minus sign.
pub open spec fn unsigned_part(t: Seq<char>) -> Seq<char> {
    if t.len() > 0 && t[0] == '-' {
        t.drop_first()
    } else {
        t
    }
}

/// `d` is the position of the decimal point of `body`, with digits on both sides.
pub open spec fn point_at(body: Seq<char>, d: int) -> bool {
    0 < d < body.len() - 1 && body[d] == '.' && all_digits(body.take(d)) && all_digits(
        body.skip(d + 1),
    )
}

/// The value of a literal `-?digits(.digits)?` with at most `MAX_DIGITS`
/// digits; `None` for any other text.
pub open spec fn literal_value(t: Seq<char>) -> Option<(bool, nat, nat)> {
    let neg = t.len() > 0 && t[0] == '-';
    let body = unsigned_part(t);
    if 0 < body.len() <= MAX_DIGITS && all_digits(body) {
        Some((neg, digits_value(body), 0))
    } else if body.len() <= MAX_DIGITS + 1 && exists|d: int| point_at(body, d) {
        let d = choose|d: int| point_at(body, d);
        Some((neg, digits_value(body.take(d) + body.skip(d + 1)), (body.len() - d - 1) as nat))
    } else {
        None
    }
}

pub open spec fn decimal_model(x: Decimal) -> (bool, nat, nat) {
    (x.negative, x.mantissa as nat, x.scale as nat)
}

proof fn lemma_digits_push(s: Seq<char>, c: char)
    ensures
        digits_value(s.push(c)) == digits_value(s) * 10 + digit_value(c),
{
    assert(s.push(c).drop_last() =~= s);
}

pub(crate) proof fn lemma_pow10_grows(a: nat, b: nat)
    requires
        a <= b,
    ensures
        pow10(a) <= pow10(b),
    decreases b,
{
    if a < b {
        lemma_pow10_grows(a, (b - 1) as nat);
    }
}

pub(crate) proof fn lemma_pow10_38()
    ensures
        pow10(38) == 100000000000000000000000000000000000000nat,
{
    reveal_with_fuel(pow10, 39);
}

/// Reads a number literal as a decimal value.
pub fn parse_decimal(t: &Vec<char>) -> (r: Option<Decimal>)
    ensures
        match r {
            Some(x) => literal_value(t@) == Some(decimal_model(x)),
            None => literal_value(t@) is None,
        },
        r matches Some(x) ==> x.mantissa < pow10(MAX_DIGITS as nat) && x.scale <= MAX_DIGITS,
{
    let neg = t.len() > 0 && t[0] == '-';
    let start: usize = if neg { 1 } else { 0 };
    let ghost body = unsigned_part(t@);
    assert(body =~= t@.skip(start as int));
    let n = t.len() - start;
    if n == 0 || n > MAX_DIGITS + 1 {
        return None;
    }
    proof { lemma_pow10_38(); }
    // Integer digits.
    let mut i: usize = start;
    let mut mant: u128 = 0;
    while i < t.len() && '0' <= t[i] && t[i] <= '9'
        invariant
            start <= i <= t@.len(),
            t@.len() - start <= 38,
            body == t@.skip(start as int),
            body == unsigned_part(t@),
            all_digits(body.take(i - start)),
            mant == digits_value(body.take(i - start)),
            mant < pow10((i - start) as nat),
        decreases t@.len() - i,
    {
        let ghost k = (i - start) as int;
        proof {
            assert(body.take(k + 1) =~= body.take(k).push(body[k]));
            lemma_digits_push(body.take(k), body[k]);
            lemma_pow10_grows((k + 1) as nat, 38);
            assert(pow10((k + 1) as nat) == 10 * pow10(k as nat));
            assert(mant * 10 + 9 < pow10((k + 1) as nat)) by (nonlinear_arith)
                requires
                    mant < pow10(k as nat),
                    pow10((k + 1) as nat) == 10 * pow10(k as nat),
            ;
        }
        let dv = (t[i] as u32 - '0' as u32) as u128;
        assert(dv <= 9);
        proof { lemma_pow10_38(); }
        mant = mant * 10 + dv;
        i += 1;
    }
    let int_len = i - start;
    if i == t.len() {
        assert(body.take(int_len as int) =~= body);
        if int_len > MAX_DIGITS {
            return None;
        }
        proof { lemma_pow10_grows(int_len as nat, 37); }
        return Some(Decimal { negative: neg, mantissa: mant, scale: 0 });
    }
    if t[i] != '.' || int_len == 0 || i + 1 == t.len() {
        proof {
            assert(!all_digits(body)) by {
                assert(!is_digit(body[int_len as int]));
            }
            if exists|d: int| point_at(body, d) {
                let d = choose|d: int| point_at(body, d);
                if d < int_len {
                    assert(body.take(d + 1) == body.take(int_len as int).take(d + 1));
                    assert(is_digit(body.take(int_len as int)[d]));
                } else if d > int_len {
                    assert(is_digit(body.take(d)[int_len as int]));
                }
            }
        }
        return None;
    }
    // Fraction digits.
    let d = i;
    let ghost dp = (d - start) as int;
    i = i + 1;
    while i < t.len()
        invariant
            start <= d < i <= t@.len(),
            dp == d - start,
            t@.len() - start <= 38,
            body == t@.skip(start as int),
            body == unsigned_part(t@),
            body[dp] == '.',
            all_digits(body.take(dp)),
            all_digits(body.subrange(dp + 1, i - start)),
            mant == digits_value(body.take(dp) + body.subrange(dp + 1, i - start)),
            mant < pow10((i - start - 1) as nat),
        decreases t@.len() - i,
    {
        if t[i] < '0' || t[i] > '9' {
            proof {
                let k = (i - start) as int;
                assert(!is_digit(body[k]));
                assert(!all_digits(body));
                if exists|e: int| point_at(body, e) {
                    let e = choose|e: int| point_at(body, e);
                    if e < dp {
                        assert(is_digit(body.take(dp)[e]));
                    } else if e > dp {
                        assert(is_digit(body.take(e)[dp]));
                    } else {
                        assert(is_digit(body.skip(dp + 1)[k - dp - 1]));
                    }
                }
            }
            return None;
        }
        let ghost k = (i - start) as int;
        proof {
            let pre = body.take(dp) + body.subrange(dp + 1, k);
            assert(body.take(dp) + body.subrange(dp + 1, k + 1) =~= pre.push(body[k]));
            assert(body.subrange(dp + 1, k + 1) =~= body.subrange(dp + 1, k).push(body[k]));
            lemma_digits_push(pre, body[k]);
            lemma_pow10_grows(k as nat, 38);
            assert(pow10(k as nat) == 10 * pow10((k - 1) as nat));
            assert(mant * 10 + 9 < pow10(k as nat)) by (nonlinear_arith)
                requires
                    mant < pow10((k - 1) as nat),
                    pow10(k as nat) == 10 * pow10((k - 1) as nat),
            ;
        }
        let dv = (t[i] as u32 - '0' as u32) as u128;
        assert(dv <= 9);
        proof { lemma_pow10_38(); }
        mant = mant * 10 + dv;
        i += 1;
    }
    proof {
        assert(body.subrange(dp + 1, body.len() as int) =~= body.skip(dp + 1));
        assert(point_at(body, dp));
        assert(!all_digits(body)) by {
            assert(!is_digit(body[dp]));
        }
        let e = choose|e: int| point_at(body, e);
        if e < dp {
            assert(is_digit(body.take(dp)[e]));
        } else if e > dp {
            assert(is_digit(body.take(e)[dp]));
        }
        lemma_pow10_grows((i - start - 1) as nat, 37);
    }
    Some(Decimal { negative: neg, mantissa: mant, scale: (t.len() - d - 1) as u32 })
}

pub open spec fn digit_char(v: nat) -> char {
    ((v + 48) as u8) as char
}

/// The decimal digits of a natural number, without leading zeros.
pub open spec fn nat_text(n: nat) -> Seq<char>
    decreases n,
{
    if n < 10 {
        seq![digit_char(n)]
    } else {
        nat_text(n / 10).push(digit_char(n % 10))
    }
}

/// The last `k` decimal digits of `f`, with leading zeros.
pub open spec fn padded_text(f: nat, k: nat) -> Seq<char>
    decreases k,
{
    if k == 0 {
        seq![]
    } else {
        padded_text(f / 10, (k - 1) as nat).push(digit_char(f % 10))
    }
}

/// A fraction `f / 10^k` with its trailing zero digits removed.
pub open spec fn trimmed(f: nat, k: nat) -> (nat, nat)
    decreases k,
{
    if k > 0 && f % 10 == 0 {
        trimmed(f / 10, (k - 1) as nat)
    } else {
        (f, k)
    }
}

/// The fraction `f / 10^k` (below one) written as `.digits`, or as nothing
/// when it is zero.
pub open spec fn fraction_text(f: nat, k: nat) -> Seq<char> {
    let (g, j) = trimmed(f, k);
    if j == 0 {
        seq![]
    } else {
        seq!['.'] + padded_text(g, j)
    }
}



pub open spec fn is_marker(c: char) -> bool {
    c == 'e' || c == 'E'
}

/// `k` is the position of the first exponent marker of `t`.
pub open spec fn marker_at(t: Seq<char>, k: int) -> bool {
    0 <= k < t.len() && is_marker(t[k]) && forall|j: int| 0 <= j < k ==> !is_marker(#[trigger] t[j])
}

/// The value of an exponent `[+-]?digits` of at most four digits.
pub open spec fn exponent_value(s: Seq<char>) -> Option<int> {
    let signed = s.len() > 0 && (s[0] == '-' || s[0] == '+');
    let body = if signed { s.drop_first() } else { s };
    if 0 < body.len() <= 4 && all_digits(body) {
        Some(if signed && s[0] == '-' { -(digits_value(body) as int) } else { digits_value(body) as int })
    } else {
        None
    }
}

/// The value of a number literal `-?digits(.digits)?([eE][+-]?digits)?` as a
/// sign, a mantissa `m` and an exponent `e`: the number is `m * 10^e`.
pub open spec fn number_value(t: Seq<char>) -> Option<(bool, nat, int)> {
    if exists|k: int| marker_at(t, k) {
        let k = choose|k: int| marker_at(t, k);
        match (literal_value(t.take(k)), exponent_value(t.skip(k + 1))) {
            (Some((neg, m, sc)), Some(e)) => Some((neg, m, e - sc)),
            _ => None,
        }
    } else {
        match literal_value(t) {
            Some((neg, m, sc)) => Some((neg, m, -(sc as int))),
            None => None,
        }
    }
}


/// The text of `p / a` for two number literals: present exactly when both
/// can be read and `a` is greater than zero; the quotient is then rounded to
/// seventeen significant digits.
pub open spec fn quotient_of_literals(p: Seq<char>, a: Seq<char>) -> Option<Seq<char>> {
    match (number_value(p), number_value(a)) {
        (Some((np, mp, ep)), Some((na, ma, ea))) => if !na && ma > 0 {
            Some(rounded_text(np, mp, ma, ep - ea))
        } else {
            None
        },
        _ => None,
    }
}

pub(crate) fn digit_char_of(v: u8) -> (c: char)
    requires
        v < 10,
    ensures
        c == digit_char(v as nat),
{
    (v + 48) as char
}

pub(crate) fn push_nat_text(n: u128, out: &mut Vec<char>)
    ensures
        final(out)@ == old(out)@ + nat_text(n as nat),
    decreases n,
{
    if n >= 10 {
        push_nat_text(n / 10, out);
    }
    let c = digit_char_of((n % 10) as u8);
    out.push(c);
    proof {
        if n < 10 {
            assert(n % 10 == n);
        }
        assert(old(out)@ + nat_text(n as nat) =~= final(out)@);
    }
}


pub(crate) proof fn lemma_pow10_36()
    ensures
        pow10(37) == 10000000000000000000000000000000000000nat,
        pow10(36) == 1000000000000000000000000000000000000nat,
        pow10(15) == 1000000000000000nat,
{
    reveal_with_fuel(pow10, 39);
}

pub(crate) proof fn lemma_long_division_step(x: int, d: int)
    requires
        x >= 0,
        d > 0,
    ensures
        (10 * x) / d == 10 * (x / d) + (10 * (x % d)) / d,
        (10 * x) % d == (10 * (x % d)) % d,
{
    let a = x / d;
    let b = x % d;
    lemma_fundamental_div_mod(x, d);
    let c = (10 * b) / d;
    let e = (10 * b) % d;
    lemma_fundamental_div_mod(10 * b, d);
    assert(10 * x == (10 * a + c) * d + e) by (nonlinear_arith)
        requires
            x == d * a + b,
            10 * b == d * c + e,
    ;
    lemma_fundamental_div_mod_converse(10 * x, d, 10 * a + c, e);
}





/// Reads the exponent of a number literal.
fn parse_exponent(s: &Vec<char>) -> (r: Option<i64>)
    ensures
        match r {
            Some(e) => exponent_value(s@) == Some(e as int),
            None => exponent_value(s@) is None,
        },
        r matches Some(e) ==> -10000 < e < 10000,
{
    let signed = s.len() > 0 && (s[0] == '-' || s[0] == '+');
    let start: usize = if signed { 1 } else { 0 };
    let ghost body = if signed { s@.drop_first() } else { s@ };
    assert(body =~= s@.skip(start as int));
    if s.len() - start == 0 || s.len() - start > 4 {
        return None;
    }
    let mut v: i64 = 0;
    let mut i: usize = start;
    while i < s.len()
        invariant
            start <= i <= s@.len(),
            s@.len() - start <= 4,
            body == s@.skip(start as int),
            body == (if s@.len() > 0 && (s@[0] == '-' || s@[0] == '+') { s@.drop_first() } else { s@ }),
            all_digits(body.take(i - start)),
            v == digits_value(body.take(i - start)),
            v < pow10((i - start) as nat),
        decreases s@.len() - i,
    {
        let ghost k = (i - start) as int;
        if s[i] < '0' || s[i] > '9' {
            assert(!is_digit(body[k]));
            assert(!all_digits(body));
            return None;
        }
        proof {
            assert(body.take(k + 1) =~= body.take(k).push(body[k]));
            lemma_digits_push(body.take(k), body[k]);
            lemma_pow10_grows((k + 1) as nat, 4);
            reveal_with_fuel(pow10, 5);
            assert(pow10((k + 1) as nat) == 10 * pow10(k as nat));
            assert(v * 10 + 9 < pow10((k + 1) as nat)) by (nonlinear_arith)
                requires
                    v < pow10(k as nat),
                    pow10((k + 1) as nat) == 10 * pow10(k as nat),
            ;
        }
        v = v * 10 + (s[i] as u32 - '0' as u32) as i64;
        i += 1;
    }
    assert(body.take(i - start) =~= body);
    proof {
        lemma_pow10_grows((i - start) as nat, 4);
        reveal_with_fuel(pow10, 5);
    }
    if signed && s[0] == '-' {
        Some(-v)
    } else {
        Some(v)
    }
}

/// Reads a number literal as a sign, a mantissa and an exponent.
pub fn parse_number(t: &Vec<char>) -> (r: Option<(bool, u128, i64)>)
    ensures
        match r {
            Some((neg, m, e)) => number_value(t@) == Some((neg, m as nat, e as int)),
            None => number_value(t@) is None,
        },
        r matches Some((neg, m, e)) ==> m < pow10(MAX_DIGITS as nat) && -10100 < e < 10000,
{
    let mut k: usize = 0;
    while k < t.len() && t[k] != 'e' && t[k] != 'E'
        invariant
            k <= t@.len(),
            forall|j: int| 0 <= j < k ==> !is_marker(#[trigger] t@[j]),
        decreases t@.len() - k,
    {
        k += 1;
    }
    if k == t.len() {
        assert(!exists|j: int| marker_at(t@, j));
        match parse_decimal(t) {
            Some(x) => Some((x.negative, x.mantissa, -(x.scale as i64))),
            None => None,
        }
    } else {
        assert(marker_at(t@, k as int));
        assert forall|j: int| marker_at(t@, j) implies j == k by {
            if j < k {
                assert(!is_marker(t@[j]));
            } else if j > k {
                assert(!is_marker(t@[k as int]));
            }
        }
        let mut front: Vec<char> = Vec::new();
        let mut back: Vec<char> = Vec::new();
        let mut i: usize = 0;
        while i < t.len()
            invariant
                k < t@.len(),
                i <= t@.len(),
                i <= k ==> front@ == t@.take(i as int) && back@.len() == 0,
                i > k ==> front@ == t@.take(k as int) && back@ == t@.subrange(k + 1, i as int),
            decreases t@.len() - i,
        {
            if i < k {
                front.push(t[i]);
                assert(t@.take(i + 1) =~= t@.take(i as int).push(t@[i as int]));
            } else if i > k {
                back.push(t[i]);
                assert(t@.subrange(k + 1, i + 1) =~= t@.subrange(k + 1, i as int).push(t@[i as int]));
            } else {
                assert(back@ =~= t@.subrange(k + 1, i + 1));
            }
            i += 1;
        }
        assert(back@ =~= t@.skip(k + 1));
        match (parse_decimal(&front), parse_exponent(&back)) {
            (Some(x), Some(e)) => Some((x.negative, x.mantissa, e - x.scale as i64)),
            _ => None,
        }
    }
}


pub(crate) proof fn lemma_pow10_mul(a: nat, b: nat)
    ensures
        pow10(a + b) == pow10(a) * pow10(b),
    decreases a,
{
    if a > 0 {
        lemma_pow10_mul((a - 1) as nat, b);
        assert(pow10(a + b) == 10 * pow10((a - 1 + b) as nat));
        assert(10 * (pow10((a - 1) as nat) * pow10(b)) == (10 * pow10((a - 1) as nat)) * pow10(b))
            by (nonlinear_arith);
    } else {
        assert(pow10(0) == 1);
        assert(a + b == b);
    }
}


/// The text of `population / area` for two number literals, as
/// `quotient_of_literals` states it.
pub fn density_text(population: &Vec<char>, area: &Vec<char>) -> (r: Option<Vec<char>>)
    ensures
        match r {
            Some(x) => quotient_of_literals(population@, area@) == Some(x@),
            None => quotient_of_literals(population@, area@) is None,
        },
{
    match (parse_number(population), parse_number(area)) {
        (Some((np, mp, ep)), Some((na, ma, ea))) => {
            if na || ma == 0 {
                None
            } else {
                Some(write_rounded(np, mp, ma, ep - ea))
            }
        },
        _ => None,
    }
}

} // verus!
